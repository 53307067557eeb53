//! Reverse geocoding, catalog resolution and cache policy.

use geocoder_core::catalog::{
    collection_has_shard, collection_key, find_latest_link, get_embedded_item, item_key,
    resolve_item_source, reverse_item_key, shard_key, version_from_href, CatalogDoc,
    CollectionDoc, EmbeddedItemDoc, ItemSource, LinkDoc, ShardEntry,
};
use geocoder_core::cache::{cache_key, resolve_cached_read, ttl_for, ResourceClass, CACHE_PREFIX};
use geocoder_core::{choose_reverse, reverse_pick, ReverseResult};

fn mk_rev(id: &str, name: &str, bbox: (i64, i64, i64, i64), area: i64) -> ReverseResult {
    ReverseResult {
        gers_id: id.to_string(),
        subtype: "locality".to_string(),
        primary_name: name.to_string(),
        lat: 0,
        lon: 0,
        bbox_xmin: bbox.0,
        bbox_ymin: bbox.1,
        bbox_xmax: bbox.2,
        bbox_ymax: bbox.3,
        area,
        population: None,
        country: None,
        region: None,
    }
}

fn mk_link(rel: &str, href: &str, latest: bool) -> LinkDoc {
    LinkDoc { rel: rel.to_string(), href: href.to_string(), latest }
}

fn mk_item(href: &str, record_count: u64) -> EmbeddedItemDoc {
    EmbeddedItemDoc {
        record_count,
        size_bytes: 1024,
        sha256: "0f3a".to_string(),
        href: href.to_string(),
    }
}

#[test]
fn test_reverse_city_beats_region() {
    // the point sits inside both the city and its containing region;
    // the smaller area must win
    let city = mk_rev("city", "Springfield", (-100, -100, 100, 100), 50);
    let region = mk_rev("region", "Greene County", (-10_000, -10_000, 10_000, 10_000), 90_000);
    let out = reverse_pick(vec![region, city], 0, 0).expect("point is inside both");
    assert_eq!(out.gers_id, "city");
    assert_eq!(out.primary_name, "Springfield");
}

#[test]
fn test_reverse_ignores_non_containing() {
    let near = mk_rev("near", "Next Door", (200, 200, 400, 400), 10);
    let big = mk_rev("big", "Region", (-1000, -1000, 1000, 1000), 4_000_000);
    let out = reverse_pick(vec![near, big], 0, 0).unwrap();
    assert_eq!(out.gers_id, "big");
    assert!(reverse_pick(vec![mk_rev("n", "N", (200, 200, 400, 400), 10)], 0, 0).is_none());
}

#[test]
fn test_reverse_country_shard_wins_outright() {
    let city = mk_rev("c", "City", (-1, -1, 1, 1), 10);
    let fallback = mk_rev("f", "Fallback", (-2, -2, 2, 2), 20);
    let picked = choose_reverse(Some(Some(city)), Some(fallback)).unwrap();
    assert_eq!(picked.gers_id, "c");
}

#[test]
fn test_reverse_falls_back_to_head() {
    let fallback = mk_rev("f", "Fallback", (-2, -2, 2, 2), 20);
    // country shard answered with no containing division
    let picked = choose_reverse(Some(None), Some(fallback)).unwrap();
    assert_eq!(picked.gers_id, "f");
    // country shard was unavailable altogether
    let fallback2 = mk_rev("f", "Fallback", (-2, -2, 2, 2), 20);
    let picked2 = choose_reverse(None, Some(fallback2)).unwrap();
    assert_eq!(picked2.gers_id, "f");
    assert!(choose_reverse(Some(None), None).is_none());
}

#[test]
fn test_find_latest_link() {
    let catalog = CatalogDoc {
        links: vec![
            mk_link("child", "./2025-06-01.0/collection.json", false),
            mk_link("self", "./catalog.json", false),
            mk_link("child", "./2026-01-02.0/collection.json", true),
        ],
    };
    assert_eq!(find_latest_link(&catalog), Some(2));
    let empty = CatalogDoc { links: vec![mk_link("child", "./x/collection.json", false)] };
    assert_eq!(find_latest_link(&empty), None);
}

#[test]
fn test_version_from_href() {
    assert_eq!(version_from_href("./2026-01-02.0/collection.json"), "2026-01-02.0");
    assert_eq!(version_from_href("2026-01-02.0/collection.json"), "2026-01-02.0");
    assert_eq!(version_from_href("plain"), "plain");
}

#[test]
fn test_storage_keys() {
    assert_eq!(collection_key("2026-01-02.0"), "2026-01-02.0/collection.json");
    assert_eq!(item_key("v1", "US"), "v1/items/US.json");
    assert_eq!(reverse_item_key("v1", "US"), "v1/reverse-items/US.json");
    assert_eq!(shard_key("v1", "./shards/US.db"), "v1/shards/US.db");
    assert_eq!(shard_key("v1", "shards/US.db"), "v1/shards/US.db");
}

#[test]
fn test_collection_has_shard_both_schemas() {
    let embedded = CollectionDoc {
        id: "col".to_string(),
        items: vec![ShardEntry {
            shard_id: "US".to_string(),
            item: mk_item("./shards/US.db", 1000),
        }],
        links: vec![],
    };
    assert!(collection_has_shard(&embedded, "US"));
    assert!(!collection_has_shard(&embedded, "FR"));

    let legacy = CollectionDoc {
        id: "col".to_string(),
        items: vec![],
        links: vec![mk_link("item", "./items/FR.json", false)],
    };
    assert!(collection_has_shard(&legacy, "FR"));
    assert!(!collection_has_shard(&legacy, "US"));
}

#[test]
fn test_resolve_item_source() {
    let collection = CollectionDoc {
        id: "col".to_string(),
        items: vec![ShardEntry {
            shard_id: "US".to_string(),
            item: mk_item("./shards/US.db", 1000),
        }],
        links: vec![mk_link("item", "./items/HEAD.json", false)],
    };
    match resolve_item_source(&collection, "v1", "US") {
        ItemSource::Embedded(it) => {
            assert_eq!(it.href, "./shards/US.db");
            assert_eq!(it.record_count, 1000);
        },
        ItemSource::LegacyKey(_) => panic!("US is embedded"),
    }
    match resolve_item_source(&collection, "v1", "HEAD") {
        ItemSource::Embedded(_) => panic!("HEAD is not embedded"),
        ItemSource::LegacyKey(k) => assert_eq!(k, "v1/items/HEAD.json"),
    }
    assert!(get_embedded_item(&collection, "HEAD").is_none());
}

#[test]
fn test_cache_ttls_per_class() {
    assert_eq!(ttl_for(&ResourceClass::Catalog), 300);
    assert_eq!(ttl_for(&ResourceClass::Collection), 300);
    assert_eq!(ttl_for(&ResourceClass::ShardBinary), 3600);
}

#[test]
fn test_cache_key_is_namespaced() {
    let k = cache_key("catalog.json");
    assert!(k.starts_with(CACHE_PREFIX));
    assert!(k.ends_with("catalog.json"));
}

#[test]
fn test_cached_read_plans() {
    // hit: serve the cached bytes, store nothing
    let plan = resolve_cached_read(&ResourceClass::Catalog, Some(vec![1, 2]), None);
    assert_eq!(plan.serve, Some(vec![1, 2]));
    assert!(plan.store.is_none());
    // miss with a backing hit: serve and schedule a write-back with the TTL
    let plan = resolve_cached_read(&ResourceClass::ShardBinary, None, Some(vec![3, 4]));
    assert_eq!(plan.serve, Some(vec![3, 4]));
    let (bytes, ttl) = plan.store.expect("write-back scheduled");
    assert_eq!(bytes, vec![3, 4]);
    assert_eq!(ttl, 3600);
    // absent everywhere
    let plan = resolve_cached_read(&ResourceClass::Collection, None, None);
    assert!(plan.serve.is_none());
    assert!(plan.store.is_none());
}
