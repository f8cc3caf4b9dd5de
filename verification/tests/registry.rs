use ic_stable_structures::{StableBTreeMap, VectorMemory};
use ip_market_backend::registry::{key_less, Registry};
use ip_market_backend::types::SocialLink;

fn link(url: &str) -> SocialLink {
    SocialLink { url: url.to_string(), platform: "web".to_string() }
}

fn walk(r: &Registry<SocialLink>) -> Vec<(String, String)> {
    let mut out = Vec::new();
    for i in 0..r.count() {
        out.push((r.key_at(i).clone(), r.value_at(i).url.clone()));
    }
    out
}

#[test]
fn keys_are_ordered_by_their_bytes() {
    assert!(key_less("a", "b"));
    assert!(!key_less("b", "a"));
    assert!(!key_less("a", "a"));
    assert!(key_less("", "a"));
    assert!(!key_less("a", ""));
    assert!(!key_less("", ""));
    assert!(key_less("a", "ab"));
    assert!(key_less("LISTING_10", "LISTING_2"));
    assert!(key_less("IP_9", "NFT_1"));
    assert!(key_less("Z", "a"));
    assert!(key_less("z", "\u{e9}"));
    for (a, b) in [("x", "y"), ("ab", "abc"), ("NFT_3", "NFT_30"), ("\u{e9}", "\u{4e2d}")] {
        assert_eq!(key_less(a, b), a < b);
        assert_eq!(key_less(b, a), b < a);
    }
}

#[test]
fn empty_registry() {
    let r: Registry<SocialLink> = Registry::new();
    assert_eq!(r.len(), 0);
    assert_eq!(r.count(), 0);
    assert!(r.is_empty());
    assert!(!r.contains_key(&"a".to_string()));
    assert!(r.get(&"a".to_string()).is_none());
}

#[test]
fn insert_then_get() {
    let mut r: Registry<SocialLink> = Registry::new();
    assert!(r.insert("k1".to_string(), link("u1")).is_none());
    assert_eq!(r.len(), 1);
    assert!(!r.is_empty());
    assert!(r.contains_key(&"k1".to_string()));
    assert_eq!(r.get(&"k1".to_string()).unwrap().url, "u1");
    assert!(r.get(&"k2".to_string()).is_none());
}

#[test]
fn insert_replaces_and_hands_back_the_old_record() {
    let mut r: Registry<SocialLink> = Registry::new();
    r.insert("k".to_string(), link("old"));
    let before = r.insert("k".to_string(), link("new"));
    assert_eq!(before.unwrap().url, "old");
    assert_eq!(r.len(), 1);
    assert_eq!(r.get(&"k".to_string()).unwrap().url, "new");
}

#[test]
fn walk_is_in_key_order() {
    let mut r: Registry<SocialLink> = Registry::new();
    for k in ["L_2", "L_10", "L_1", "L_3", "L_0", "L_11"] {
        r.insert(k.to_string(), link(k));
    }
    let keys: Vec<String> = walk(&r).into_iter().map(|(k, _)| k).collect();
    assert_eq!(keys, vec!["L_0", "L_1", "L_10", "L_11", "L_2", "L_3"]);
    for (k, v) in walk(&r) {
        assert_eq!(k, v);
    }
    r.insert("L_10".to_string(), link("changed"));
    assert_eq!(
        walk(&r).into_iter().map(|(_, v)| v).collect::<Vec<_>>(),
        vec!["L_0", "L_1", "changed", "L_11", "L_2", "L_3"]
    );
    assert_eq!(r.len(), 6);
}

#[test]
fn remove_takes_the_record_away() {
    let mut r: Registry<SocialLink> = Registry::new();
    for k in ["b", "a", "c"] {
        r.insert(k.to_string(), link(k));
    }
    assert!(r.remove(&"x".to_string()).is_none());
    assert_eq!(r.len(), 3);
    assert_eq!(r.remove(&"b".to_string()).unwrap().url, "b");
    assert!(!r.contains_key(&"b".to_string()));
    assert!(r.remove(&"b".to_string()).is_none());
    assert_eq!(walk(&r).into_iter().map(|(k, _)| k).collect::<Vec<_>>(), vec!["a", "c"]);
    assert_eq!(r.remove(&"a".to_string()).unwrap().url, "a");
    assert_eq!(r.remove(&"c".to_string()).unwrap().url, "c");
    assert!(r.is_empty());
    r.insert("b".to_string(), link("again"));
    assert_eq!(r.get(&"b".to_string()).unwrap().url, "again");
}

#[test]
fn registry_walks_like_a_stable_btree_map() {
    let mut ours: Registry<SocialLink> = Registry::new();
    let mut theirs: StableBTreeMap<String, String, VectorMemory> =
        StableBTreeMap::init(VectorMemory::default());
    let mut seed: u64 = 0x2545_f491_4f6c_dd1d;
    for round in 0..600u32 {
        seed ^= seed << 13;
        seed ^= seed >> 7;
        seed ^= seed << 17;
        let prefix = ["IP", "NFT", "LISTING", "\u{e9}", "Z", "a"][(seed % 6) as usize];
        let key = format!("{}_{}", prefix, (seed >> 8) % 120);
        let value = format!("v{}", round);
        if seed % 5 == 0 {
            assert_eq!(ours.remove(&key).map(|l| l.url), theirs.remove(&key));
        } else {
            assert_eq!(
                ours.insert(key.clone(), link(&value)).map(|l| l.url),
                theirs.insert(key.clone(), value)
            );
        }
        assert_eq!(ours.len(), theirs.len());
        assert_eq!(ours.contains_key(&key), theirs.contains_key(&key));
        assert_eq!(ours.get(&key).map(|l| l.url.clone()), theirs.get(&key));
    }
    assert!(ours.len() > 50);
    let walked: Vec<(String, String)> = theirs.iter().collect();
    assert_eq!(walk(&ours), walked);
}
