use std::collections::hash_map::DefaultHasher;

use perfect_hasher::{
    AssociativeIdentifierTable, CollideHasher, Id, PerfectHashMap, PerfectHashMap16, PerfectHashMap32,
    PerfectHashMap64, PerfectHashMap8,
};

fn sum(old: &mut u32, new: &u32) {
    *old += *new;
}

#[test]
fn associative_merge() {
    let mut map: PerfectHashMap<char, CollideHasher, u32> = PerfectHashMap::with_hasher(CollideHasher);
    let first = map.unique_id('a', 3, sum);
    let second = map.unique_id('a', 4, sum);
    assert_eq!(Id::new(0), first);
    assert_eq!(first, second);
    assert_eq!(('a', 7), map[first]);
    assert_eq!(None, map.get(1));
    assert_eq!(None, map.get(usize::MAX));
}

#[test]
fn merge_is_not_called_for_new_content() {
    let mut map: PerfectHashMap8<char, CollideHasher, u32> = PerfectHashMap8::with_hasher(CollideHasher);
    let a = map.unique_id('a', 3, |_: &mut u32, _: &u32| panic!("nothing to merge into"));
    let b = map.unique_id('b', 4, |_: &mut u32, _: &u32| panic!("nothing to merge into"));
    assert_eq!(('a', 3), map[a]);
    assert_eq!(('b', 4), map[b]);
}

#[test]
fn merge_keeps_the_first_content() {
    // Contents that compare equal but differ in what the order ignores.
    #[derive(Debug, Hash)]
    struct Tagged(u8, &'static str);
    impl PartialEq for Tagged {
        fn eq(&self, other: &Self) -> bool {
            self.0 == other.0
        }
    }
    impl Eq for Tagged {}
    impl PartialOrd for Tagged {
        fn partial_cmp(&self, other: &Self) -> Option<std::cmp::Ordering> {
            Some(self.cmp(other))
        }
    }
    impl Ord for Tagged {
        fn cmp(&self, other: &Self) -> std::cmp::Ordering {
            self.0.cmp(&other.0)
        }
    }
    let mut map: PerfectHashMap8<Tagged, CollideHasher, u32> = PerfectHashMap8::with_hasher(CollideHasher);
    let first = map.unique_id(Tagged(1, "first"), 10, sum);
    let second = map.unique_id(Tagged(1, "second"), 5, sum);
    assert_eq!(first, second);
    assert_eq!("first", map[first].0.1);
    assert_eq!(15, map[first].1);
}

#[test]
fn associative_collisions_resolve_as_in_the_plain_table() {
    let mut map: PerfectHashMap8<char, CollideHasher, u32> = PerfectHashMap8::with_hasher(CollideHasher);
    assert_eq!(Id::new(0), map.unique_id('m', 1, sum));
    assert_eq!(Id::new(1), map.unique_id('n', 2, sum));
    assert_eq!(Id::new(255), map.unique_id('l', 3, sum));
    assert_eq!(Id::new(1), map.unique_id('n', 20, sum));
    assert_eq!(Some(&('n', 22)), map.get(1));
    assert_eq!(Some(&('l', 3)), map.get(255));
    let mut map16: PerfectHashMap16<char, CollideHasher, u32> = PerfectHashMap16::with_hasher(CollideHasher);
    assert_eq!(Id::new(0), map16.unique_id('m', 1, sum));
    assert_eq!(Id::new(u16::MAX), map16.unique_id('l', 1, sum));
    let mut map32: PerfectHashMap32<char, CollideHasher, u32> = PerfectHashMap32::with_hasher(CollideHasher);
    assert_eq!(Id::new(0), map32.unique_id('m', 1, sum));
    assert_eq!(Id::new(u32::MAX), map32.unique_id('l', 1, sum));
    let mut map64: PerfectHashMap64<char, CollideHasher, u32> = PerfectHashMap64::with_hasher(CollideHasher);
    assert_eq!(Id::new(0), map64.unique_id('m', 1, sum));
    assert_eq!(Id::new(u64::MAX), map64.unique_id('l', 1, sum));
}

#[test]
fn get_mut_exposes_the_payload() {
    let mut map: PerfectHashMap8<char, CollideHasher, u32> = PerfectHashMap8::with_hasher(CollideHasher);
    let a = map.unique_id('a', 3, sum);
    assert!(map.get_mut(1).is_none());
    {
        let (content, payload) = map.get_mut(a.raw()).unwrap();
        assert_eq!(&'a', content);
        assert_eq!(3, *payload);
        *payload = 99;
    }
    assert_eq!(('a', 99), map[a]);
}

#[test]
fn index_mut_exposes_the_payload() {
    let mut map: PerfectHashMap8<char, CollideHasher, u32> = PerfectHashMap8::with_hasher(CollideHasher);
    let a = map.unique_id('a', 3, sum);
    let b = map.unique_id('b', 4, sum);
    {
        let (content, payload) = map.index_mut(b);
        assert_eq!(&'b', content);
        *payload += 1;
    }
    assert_eq!(('a', 3), map[a]);
    assert_eq!(('b', 5), map[b]);
}

#[test]
fn associative_dissociate_frees_the_slot() {
    let mut map: PerfectHashMap8<char, CollideHasher, u32> = PerfectHashMap8::with_hasher(CollideHasher);
    let a = map.unique_id('a', 3, sum);
    map.dissociate(a);
    assert_eq!(None, map.get(0));
    map.dissociate(a);
    assert_eq!(None, map.get(0));
    // The freed slot is taken again, with the new payload as it is.
    assert_eq!(Id::new(0), map.unique_id('b', 8, sum));
    assert_eq!(('b', 8), map[Id::new(0)]);
}

#[test]
fn associative_unique_id_at_and_probe() {
    let mut map: PerfectHashMap8<u32, CollideHasher, u32> = PerfectHashMap8::with_hasher(CollideHasher);
    assert_eq!(Some(9), map.probe(9, &100));
    assert_eq!(Id::new(9), map.unique_id_at(9, 100, 1, sum));
    assert_eq!(Id::new(10), map.unique_id_at(9, 200, 2, sum));
    assert_eq!(Id::new(8), map.unique_id_at(9, 50, 3, sum));
    assert_eq!(Id::new(9), map.unique_id_at(10, 100, 40, sum));
    assert_eq!(Some(&(100, 41)), map.get(9));
    assert_eq!(None, map.probe(9, &150));
    assert_eq!(Some(11), map.probe(10, &300));
}

#[test]
fn associative_try_unique_id() {
    let mut map: PerfectHashMap8<char, CollideHasher, u32> = PerfectHashMap8::with_hasher(CollideHasher);
    assert_eq!(Some(Id::new(0)), map.try_unique_id('a', 1, sum));
    assert_eq!(Some(Id::new(1)), map.try_unique_id('c', 2, sum));
    assert_eq!(None, map.try_unique_id('b', 3, sum));
    assert_eq!(Some(Id::new(0)), map.try_unique_id('a', 10, sum));
    assert_eq!(Some(&('a', 11)), map.get(0));
    assert_eq!(Some(&('c', 2)), map.get(1));
    assert_eq!(None, map.get(2));
    assert_eq!(None, map.get(255));
}

#[test]
fn associative_constructors_make_empty_tables() {
    let a: PerfectHashMap8<u32, DefaultHasher, u32> = PerfectHashMap8::new();
    let b: PerfectHashMap8<u32, DefaultHasher, u32> =
        PerfectHashMap8::<u32, CollideHasher, u32>::with_capacity(16);
    let c: PerfectHashMap8<u32, DefaultHasher, u32> = PerfectHashMap8::default();
    let d: AssociativeIdentifierTable<u32, CollideHasher, u32, u8> =
        AssociativeIdentifierTable::with_capacity_and_hasher(16, CollideHasher);
    for slot in 0..=u8::MAX {
        assert_eq!(None, a.get(slot));
        assert_eq!(None, b.get(slot));
        assert_eq!(None, c.get(slot));
        assert_eq!(None, d.get(slot));
    }
}

#[test]
fn associative_table_under_the_default_hasher() {
    let mut map: PerfectHashMap<String, DefaultHasher, Vec<u32>> = PerfectHashMap::new();
    let foo = map.unique_id(String::from("foo"), vec![1], |old: &mut Vec<u32>, new: &Vec<u32>| {
        old.extend(new.iter())
    });
    assert_eq!("foo", map[foo].0);
    assert_eq!(vec![1], map[foo].1);
}
