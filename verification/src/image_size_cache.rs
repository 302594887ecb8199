//! Table of image dimensions, looked up while a page is composed.

use crate::text::path_has_extension;
use indexmap::IndexMap;
use vstd::prelude::*;

verus! {

/// Insertion-ordered hash map of the `indexmap` crate. Nothing of its inside
/// is visible to the verifier; what it holds is named per use.
#[verifier::external_type_specification]
#[verifier::external_body]
#[verifier::reject_recursive_types(K)]
#[verifier::reject_recursive_types(V)]
#[verifier::reject_recursive_types(S)]
pub struct ExIndexMap<K, V, S>(IndexMap<K, V, S>);

/// Pixel dimensions of one image.
#[derive(Debug, Clone, Copy, PartialEq, Eq, Structural)]
pub struct WidthAndHeight {
    pub width: u32,
    pub height: u32,
}

/// What a table of image dimensions holds: dimensions by image source.
pub uninterp spec fn image_sizes(m: IndexMap<String, WidthAndHeight>) -> Map<
    Seq<char>,
    WidthAndHeight,
>;

/// An empty table.
///
/// Trusted: `IndexMap::new` creates a map without entries.
#[verifier::external_body]
fn new_table() -> (r: IndexMap<String, WidthAndHeight>)
    ensures
        image_sizes(r) == loaded_sizes(Seq::empty()),
{
    IndexMap::new()
}

/// Stores `value` under `key` and returns what the key held before.
///
/// Trusted: `IndexMap::insert` updates the value of an equivalent key or adds
/// the pair, and returns the older value if there was one.
#[verifier::external_body]
fn table_insert(m: &mut IndexMap<String, WidthAndHeight>, key: String, value: WidthAndHeight) -> (r:
    Option<WidthAndHeight>)
    ensures
        image_sizes(*final(m)) == image_sizes(*old(m)).insert(key@, value),
        r == if image_sizes(*old(m)).contains_key(key@) {
            Some(image_sizes(*old(m))[key@])
        } else {
            None
        },
{
    m.insert(key, value)
}

/// The value stored under `key`.
///
/// Trusted: `IndexMap::get` returns the stored value of an equivalent key, or
/// `None` when the map holds none.
#[verifier::external_body]
fn table_get(m: &IndexMap<String, WidthAndHeight>, key: &str) -> (r: Option<WidthAndHeight>)
    ensures
        r == if image_sizes(*m).contains_key(key@) {
            Some(image_sizes(*m)[key@])
        } else {
            None
        },
{
    m.get(key).copied()
}

/// The map that a list of entries loads: a later entry for a source replaces
/// an earlier one.
pub open spec fn loaded_sizes(entries: Seq<(String, WidthAndHeight)>) -> Map<
    Seq<char>,
    WidthAndHeight,
>
    decreases entries.len(),
{
    if entries.len() == 0 {
        Map::empty()
    } else {
        loaded_sizes(entries.drop_last()).insert(entries.last().0@, entries.last().1)
    }
}

/// Image dimensions by image source.
pub struct ImageSizeCache {
    map: IndexMap<String, WidthAndHeight>,
}

impl View for ImageSizeCache {
    type V = Map<Seq<char>, WidthAndHeight>;

    closed spec fn view(&self) -> Map<Seq<char>, WidthAndHeight> {
        image_sizes(self.map)
    }
}

impl ImageSizeCache {
    /// A cache that holds the given entries.
    pub fn new(entries: Vec<(String, WidthAndHeight)>) -> (r: Self)
        ensures
            r@ == loaded_sizes(entries@),
    {
        let mut cache = ImageSizeCache { map: new_table() };
        cache.load(entries);
        cache
    }

    /// Replaces the contents by the given entries.
    pub fn load(&mut self, entries: Vec<(String, WidthAndHeight)>)
        ensures
            final(self)@ == loaded_sizes(entries@),
    {
        self.map = new_table();
        let mut i: usize = 0;
        assert(entries@.take(0) =~= Seq::<(String, WidthAndHeight)>::empty());
        while i < entries.len()
            invariant
                i <= entries.len(),
                self@ == loaded_sizes(entries@.take(i as int)),
            decreases entries.len() - i,
        {
            proof {
                assert(entries@.take(i + 1).drop_last() =~= entries@.take(i as int));
                assert(entries@.take(i + 1).last() == entries@[i as int]);
            }
            let _ = table_insert(&mut self.map, entries[i].0.clone(), entries[i].1);
            i += 1;
        }
        assert(entries@.take(i as int) =~= entries@);
    }

    /// The dimensions recorded for the image source `img`.
    pub fn get_dimensions(&self, img: &str) -> (r: Option<WidthAndHeight>)
        ensures
            r == if self@.contains_key(img@) {
                Some(self@[img@])
            } else {
                None
            },
    {
        table_get(&self.map, img)
    }

    /// Whether a change of the file at `path` calls for loading the table
    /// again: the table is a TOML file.
    pub fn reload_on_change(path: &str) -> (r: bool)
        ensures
            r == path_has_extension(path@, "toml"@),
    {
        crate::text::has_extension(path, "toml")
    }
}

} // verus!
