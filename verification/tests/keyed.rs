use hyperion::keyed::KeyedCache;

#[test]
fn keyed_cache_keeps_the_first_value_per_key() {
    let mut cache: KeyedCache<u32> = KeyedCache::new();
    cache.insert_if_absent(String::from("a::1"), 1);
    cache.insert_if_absent(String::from("a::1"), 9);
    cache.insert_if_absent(String::from("a::2"), 2);
    cache.insert_if_absent(String::from("b::1"), 3);
    assert_eq!(cache.get("a::1"), Some(&1));
    assert_eq!(cache.get("zz"), None);
    assert_eq!(cache.count_with_prefix("a::"), 2);
    assert_eq!(cache.count_with_prefix("c::"), 0);

    let mut removed = cache.remove_with_prefix("a::");
    removed.sort();
    assert_eq!(removed, vec![(String::from("a::1"), 1), (String::from("a::2"), 2)]);
    assert_eq!(cache.count_with_prefix("a::"), 0);
    assert_eq!(cache.remove("b::1"), Some(3));
    assert_eq!(cache.remove("b::1"), None);
    cache.insert_if_absent(String::from("c"), 4);
    assert_eq!(cache.clear(), vec![(String::from("c"), 4)]);
    assert_eq!(cache.get("c"), None);
}
