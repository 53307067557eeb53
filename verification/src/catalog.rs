//! Versioned catalog resolution: find the single link marked latest, derive
//! the version token from its path, and resolve a shard to its item
//! metadata — embedded in the collection (preferred) or behind a legacy
//! per-shard item document — and to the shard binary's path.

use vstd::prelude::*;
use vstd::string::{StrSliceExecFns, StringExecFns};
use crate::text::{has_substring, spec_has_substring, spec_starts_with, starts_with, str_eq};

verus! {

/// One link of a catalog or collection document.
pub struct LinkDoc {
    pub rel: String,
    pub href: String,
    pub latest: bool,
}

/// The catalog document: an ordered list of links.
pub struct CatalogDoc {
    pub links: Vec<LinkDoc>,
}

/// Item metadata embedded in a collection document.
pub struct EmbeddedItemDoc {
    pub record_count: u64,
    pub size_bytes: u64,
    pub sha256: String,
    pub href: String,
}

impl EmbeddedItemDoc {
    /// A field-for-field copy.
    pub fn duplicate(&self) -> (r: Self)
        ensures
            r == *self,
    {
        EmbeddedItemDoc {
            record_count: self.record_count,
            size_bytes: self.size_bytes,
            sha256: self.sha256.clone(),
            href: self.href.clone(),
        }
    }
}

/// One shard of a collection: its identifier and its embedded metadata.
pub struct ShardEntry {
    pub shard_id: String,
    pub item: EmbeddedItemDoc,
}

/// The collection document: embedded items (preferred) and links, which in
/// legacy catalogs point at separate per-shard item documents.
pub struct CollectionDoc {
    pub id: String,
    pub items: Vec<ShardEntry>,
    pub links: Vec<LinkDoc>,
}

/// A legacy per-shard item document, flattened to the fields the pipeline
/// reads.
pub struct ItemDoc {
    pub id: String,
    pub record_count: u64,
    pub size_bytes: u64,
    pub sha256: String,
    pub href: String,
}

/// Where a shard's item metadata comes from: embedded in the collection, or
/// behind the storage key of a legacy item document.
pub enum ItemSource {
    Embedded(EmbeddedItemDoc),
    LegacyKey(String),
}

/// A link that names the active collection.
pub open spec fn is_latest_child(l: LinkDoc) -> bool {
    l.rel@ == "child"@ && l.latest
}

/// Find the first link with relation "child" marked latest — the link that
/// names the active collection version. `None` when the catalog names none.
pub fn find_latest_link(catalog: &CatalogDoc) -> (out: Option<usize>)
    ensures
        match out {
            Some(i) => 0 <= i < catalog.links@.len() && is_latest_child(catalog.links@[i as int])
                && forall|j: int| 0 <= j < i ==> !is_latest_child(#[trigger] catalog.links@[j]),
            None => forall|j: int|
                0 <= j < catalog.links@.len() ==> !is_latest_child(#[trigger] catalog.links@[j]),
        },
{
    let mut i: usize = 0;
    while i < catalog.links.len()
        invariant
            0 <= i <= catalog.links@.len(),
            forall|j: int| 0 <= j < i ==> !is_latest_child(#[trigger] catalog.links@[j]),
        decreases catalog.links@.len() - i,
    {
        let l = &catalog.links[i];
        if l.latest && str_eq(l.rel.as_str(), "child") {
            return Some(i);
        }
        i += 1;
    }
    None
}

/// The version token of an href: the first path segment after a leading
/// "./" is stripped.
pub fn version_from_href(href: &str) -> (v: String)
    ensures
        ({
            let body = if spec_starts_with(href@, "./"@) {
                href@.skip(2)
            } else {
                href@
            };
            &&& v@.len() <= body.len()
            &&& v@ == body.take(v@.len() as int)
            &&& forall|j: int| 0 <= j < v@.len() ==> body[j] != '/'
            &&& (v@.len() < body.len() ==> body[v@.len() as int] == '/')
        }),
{
    proof {
        reveal_strlit("./");
    }
    let hlen = href.unicode_len();
    let body: &str = if starts_with(href, "./") {
        href.substring_char(2, hlen)
    } else {
        href
    };
    proof {
        assert(body@ =~= (if spec_starts_with(href@, "./"@) {
            href@.skip(2)
        } else {
            href@
        }));
    }
    let blen = body.unicode_len();
    let mut k: usize = 0;
    while k < blen
        invariant
            body@ == (if spec_starts_with(href@, "./"@) {
                href@.skip(2)
            } else {
                href@
            }),
            blen == body@.len(),
            0 <= k <= blen,
            forall|j: int| 0 <= j < k ==> body@[j] != '/',
        decreases blen - k,
    {
        if body.get_char(k) == '/' {
            let piece = body.substring_char(0, k);
            let out = piece.to_owned();
            proof {
                assert(out@ =~= body@.take(k as int));
            }
            return out;
        }
        k += 1;
    }
    let out = body.to_owned();
    proof {
        assert(out@ =~= body@.take(body@.len() as int));
    }
    out
}

/// The storage key of a version's collection document.
pub fn collection_key(version: &str) -> (r: String)
    ensures
        r@ == version@ + "/collection.json"@,
{
    let s = String::from_str(version);
    s.concat("/collection.json")
}

/// The storage key of a legacy per-shard item document.
pub fn item_key(version: &str, shard_id: &str) -> (r: String)
    ensures
        r@ == version@ + "/items/"@ + shard_id@ + ".json"@,
{
    let s = String::from_str(version);
    let s = s.concat("/items/");
    let s = s.concat(shard_id);
    s.concat(".json")
}

/// The storage key of a per-shard reverse-geocode item document.
pub fn reverse_item_key(version: &str, shard_id: &str) -> (r: String)
    ensures
        r@ == version@ + "/reverse-items/"@ + shard_id@ + ".json"@,
{
    let s = String::from_str(version);
    let s = s.concat("/reverse-items/");
    let s = s.concat(shard_id);
    s.concat(".json")
}

/// The storage key of a shard binary: the version joined with the item's
/// relative href, a leading "./" stripped.
pub fn shard_key(version: &str, href: &str) -> (r: String)
    ensures
        r@ == version@ + "/"@ + (if spec_starts_with(href@, "./"@) {
            href@.skip(2)
        } else {
            href@
        }),
{
    proof {
        reveal_strlit("./");
    }
    let hlen = href.unicode_len();
    let body: &str = if starts_with(href, "./") {
        href.substring_char(2, hlen)
    } else {
        href
    };
    let s = String::from_str(version);
    let s = s.concat("/");
    s.concat(body)
}

/// A shard is listed under this identifier in the embedded items.
pub open spec fn spec_has_embedded(collection: CollectionDoc, shard_id: Seq<char>) -> bool {
    exists|i: int|
        0 <= i < collection.items@.len() && (#[trigger] collection.items@[i]).shard_id@ == shard_id
}

/// A legacy link lists the shard: relation "item" and an href containing
/// "/<shard_id>.json".
pub open spec fn spec_has_legacy_link(collection: CollectionDoc, shard_id: Seq<char>) -> bool {
    exists|i: int|
        0 <= i < collection.links@.len() && (#[trigger] collection.links@[i]).rel@ == "item"@
            && spec_has_substring(collection.links@[i].href@, "/"@ + shard_id + ".json"@)
}

/// Whether the collection lists this shard, in either schema generation:
/// the embedded map is consulted first, then the legacy links.
pub fn collection_has_shard(collection: &CollectionDoc, shard_id: &str) -> (r: bool)
    ensures
        r == (spec_has_embedded(*collection, shard_id@) || spec_has_legacy_link(
            *collection,
            shard_id@,
        )),
{
    let mut i: usize = 0;
    while i < collection.items.len()
        invariant
            0 <= i <= collection.items@.len(),
            forall|j: int|
                0 <= j < i ==> (#[trigger] collection.items@[j]).shard_id@ != shard_id@,
        decreases collection.items@.len() - i,
    {
        if str_eq(collection.items[i].shard_id.as_str(), shard_id) {
            return true;
        }
        i += 1;
    }
    let needle = String::from_str("/");
    let needle = needle.concat(shard_id);
    let needle = needle.concat(".json");
    let mut k: usize = 0;
    while k < collection.links.len()
        invariant
            needle@ == "/"@ + shard_id@ + ".json"@,
            0 <= k <= collection.links@.len(),
            forall|j: int|
                0 <= j < k ==> !((#[trigger] collection.links@[j]).rel@ == "item"@
                    && spec_has_substring(collection.links@[j].href@, "/"@ + shard_id@
                    + ".json"@)),
        decreases collection.links@.len() - k,
    {
        let l = &collection.links[k];
        if str_eq(l.rel.as_str(), "item") && has_substring(l.href.as_str(), needle.as_str()) {
            return true;
        }
        k += 1;
    }
    false
}

/// The first embedded item under this identifier, if any.
pub fn get_embedded_item<'a>(collection: &'a CollectionDoc, shard_id: &str) -> (out: Option<
    &'a EmbeddedItemDoc,
>)
    ensures
        match out {
            Some(it) => exists|i: int|
                {
                    &&& 0 <= i < collection.items@.len()
                    &&& (#[trigger] collection.items@[i]).shard_id@ == shard_id@
                    &&& *it == collection.items@[i].item
                    &&& forall|j: int|
                        0 <= j < i ==> (#[trigger] collection.items@[j]).shard_id@ != shard_id@
                },
            None => !spec_has_embedded(*collection, shard_id@),
        },
{
    let mut i: usize = 0;
    while i < collection.items.len()
        invariant
            0 <= i <= collection.items@.len(),
            forall|j: int|
                0 <= j < i ==> (#[trigger] collection.items@[j]).shard_id@ != shard_id@,
        decreases collection.items@.len() - i,
    {
        if str_eq(collection.items[i].shard_id.as_str(), shard_id) {
            return Some(&collection.items[i].item);
        }
        i += 1;
    }
    None
}

/// Resolve where a shard's item metadata comes from: the embedded map is
/// consulted first; only a shard absent from it falls back to the storage
/// key of its legacy item document.
pub fn resolve_item_source(collection: &CollectionDoc, version: &str, shard_id: &str) -> (out:
    ItemSource)
    ensures
        match out {
            ItemSource::Embedded(it) => exists|i: int|
                {
                    &&& 0 <= i < collection.items@.len()
                    &&& (#[trigger] collection.items@[i]).shard_id@ == shard_id@
                    &&& it == collection.items@[i].item
                    &&& forall|j: int|
                        0 <= j < i ==> (#[trigger] collection.items@[j]).shard_id@ != shard_id@
                },
            ItemSource::LegacyKey(k) => !spec_has_embedded(*collection, shard_id@) && k@
                == version@ + "/items/"@ + shard_id@ + ".json"@,
        },
{
    match get_embedded_item(collection, shard_id) {
        Some(it) => ItemSource::Embedded(it.duplicate()),
        None => ItemSource::LegacyKey(item_key(version, shard_id)),
    }
}

} // verus!
