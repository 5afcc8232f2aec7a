//! The cache of blurred cover backgrounds: at most sixteen, keyed by the hash of
//! the cover's bytes, the least recently used evicted first; and the caption of
//! a cover preview, with the text of its byte size.

use std::collections::{HashMap, VecDeque};

use vstd::prelude::*;

use crate::i18n::{pair_views, tr, translated, Localization};
use crate::models::tag_draft::{CoverDraft, CoverView};
use crate::text::{decimal, push_char, push_char_all, push_decimal};
use crate::services::tag_reader::{as_f64, one_decimal, round_half_even};

verus! {

broadcast use vstd::std_specs::hash::group_hash_axioms;

/// How many blurred covers the cache keeps.
pub const BLURRED_COVER_CACHE_CAPACITY: usize = 16;

/// Cached values by key, with the keys from least to most recently used.
#[derive(Debug, Default)]
pub struct BlurredCoverCache<V> {
    entries: HashMap<u64, V>,
    usage_order: VecDeque<u64>,
}

/// The value of a cache: what it holds, and its keys from least to most recently
/// used.
pub struct CacheView<V> {
    pub entries: Map<u64, V>,
    pub order: Seq<u64>,
}

/// `order` without `key`.
pub open spec fn others(order: Seq<u64>, key: u64) -> Seq<u64> {
    order.filter(|k: u64| k != key)
}

/// `order` with `key` moved to the end (added when it was absent).
pub open spec fn touched(order: Seq<u64>, key: u64) -> Seq<u64> {
    others(order, key).push(key)
}

/// The cache after evicting least recently used keys, from the front of the
/// order, while it holds more than the capacity.
pub open spec fn evicted<V>(entries: Map<u64, V>, order: Seq<u64>) -> CacheView<V>
    decreases order.len(),
{
    if entries.len() > BLURRED_COVER_CACHE_CAPACITY && order.len() > 0 {
        evicted(entries.remove(order[0]), order.drop_first())
    } else {
        CacheView { entries, order }
    }
}

impl<V> CacheView<V> {
    /// Whether the order lists each cached key once and nothing else, and the
    /// cache is within its capacity.
    pub open spec fn well_formed(self) -> bool {
        &&& self.order.no_duplicates()
        &&& self.order.to_set() == self.entries.dom()
        &&& self.entries.len() <= BLURRED_COVER_CACHE_CAPACITY
    }

    /// The cache after a lookup of `key`: a hit makes it the most recently used.
    pub open spec fn looked_up(self, key: u64) -> CacheView<V> {
        if self.entries.contains_key(key) {
            CacheView { entries: self.entries, order: touched(self.order, key) }
        } else {
            self
        }
    }

    /// The cache after storing `value` under `key`: the key becomes the most
    /// recently used, and the least recently used keys go while it is over
    /// capacity.
    pub open spec fn stored(self, key: u64, value: V) -> CacheView<V> {
        evicted(self.entries.insert(key, value), touched(self.order, key))
    }
}

impl<V> View for BlurredCoverCache<V> {
    type V = CacheView<V>;

    closed spec fn view(&self) -> CacheView<V> {
        CacheView { entries: self.entries@, order: self.usage_order@ }
    }
}

proof fn lemma_others(order: Seq<u64>, key: u64)
    requires
        order.no_duplicates(),
    ensures
        others(order, key).no_duplicates(),
        forall|x: u64| #[trigger] others(order, key).contains(x) <==> (order.contains(x) && x != key),
    decreases order.len(),
{
    reveal_with_fuel(Seq::<_>::filter, 1);
    if order.len() > 0 {
        let rest = order.drop_last();
        let last = order.last();
        assert forall|i: int, j: int| 0 <= i < rest.len() && 0 <= j < rest.len() && i != j implies rest[i]
            != rest[j] by {
            assert(order[i] != order[j]);
        }
        lemma_others(rest, key);
        assert(!rest.contains(last)) by {
            if rest.contains(last) {
                let i = choose|i: int| 0 <= i < rest.len() && rest[i] == last;
                assert(order[i] == order[order.len() - 1]);
            }
        }
        let kept = others(rest, key);
        if last != key {
            assert(others(order, key) == kept.push(last));
            assert(!kept.contains(last));
            let o = others(order, key);
            assert forall|i: int, j: int| 0 <= i < o.len() && 0 <= j < o.len() && i != j implies o[i] != o[j] by {
                if i == kept.len() as int {
                    assert(kept.contains(o[j]));
                } else if j == kept.len() as int {
                    assert(kept.contains(o[i]));
                } else {
                    assert(kept[i] != kept[j]);
                }
            }
        } else {
            assert(others(order, key) == kept);
        }
        assert forall|x: u64| #[trigger] others(order, key).contains(x) <==> (order.contains(x) && x != key) by {
            if order.contains(x) && x != key {
                let i = choose|i: int| 0 <= i < order.len() && order[i] == x;
                if i < order.len() - 1 {
                    assert(rest[i] == x);
                    assert(kept.contains(x));
                    let j = choose|j: int| 0 <= j < kept.len() && kept[j] == x;
                    if last != key {
                        assert(others(order, key)[j] == x);
                    }
                } else if last != key {
                    assert(others(order, key)[kept.len() as int] == x);
                }
            }
            if others(order, key).contains(x) {
                let j = choose|j: int| 0 <= j < others(order, key).len() && others(order, key)[j] == x;
                if last != key && j == kept.len() {
                    assert(order[order.len() - 1] == x);
                } else {
                    assert(kept[j] == x);
                    assert(kept.contains(x));
                    let i = choose|i: int| 0 <= i < rest.len() && rest[i] == x;
                    assert(order[i] == x);
                }
            }
        }
    } else {
        assert(others(order, key).len() == 0);
    }
}

proof fn lemma_touched(order: Seq<u64>, key: u64)
    requires
        order.no_duplicates(),
    ensures
        touched(order, key).no_duplicates(),
        touched(order, key).to_set() == order.to_set().insert(key),
{
    lemma_others(order, key);
    let kept = others(order, key);
    let t = touched(order, key);
    assert forall|i: int, j: int| 0 <= i < t.len() && 0 <= j < t.len() && i != j implies t[i] != t[j] by {
        if i == kept.len() as int {
            assert(kept.contains(t[j]));
        } else if j == kept.len() as int {
            assert(kept.contains(t[i]));
        }
    }
    assert forall|x: u64| #[trigger] t.to_set().contains(x) <==> order.to_set().insert(key).contains(x) by {
        if t.contains(x) {
            let j = choose|j: int| 0 <= j < t.len() && t[j] == x;
            if j < kept.len() {
                assert(kept.contains(x));
            }
        }
        if order.contains(x) && x != key {
            assert(kept.contains(x));
            let j = choose|j: int| 0 <= j < kept.len() && kept[j] == x;
            assert(t[j] == x);
        }
        if x == key {
            assert(t[kept.len() as int] == x);
        }
    }
    assert(t.to_set() =~= order.to_set().insert(key));
}

impl<V> BlurredCoverCache<V> {
    /// Whether the cache is well formed.
    pub open spec fn well_formed(&self) -> bool {
        self@.well_formed()
    }

    /// An empty cache.
    pub fn new() -> (r: BlurredCoverCache<V>)
        ensures
            r@.entries == Map::<u64, V>::empty(),
            r@.order == Seq::<u64>::empty(),
            r.well_formed(),
    {
        let r = BlurredCoverCache { entries: HashMap::new(), usage_order: VecDeque::new() };
        assert(r@.order.to_set() =~= r@.entries.dom());
        r
    }

    /// Makes `key` the most recently used.
    fn touch(&mut self, key: u64)
        ensures
            final(self)@.entries == old(self)@.entries,
            final(self)@.order == touched(old(self)@.order, key),
    {
        let mut kept: VecDeque<u64> = VecDeque::new();
        let ghost original = self.usage_order@;
        let mut i: usize = 0;
        proof {
            reveal_with_fuel(Seq::<_>::filter, 1);
            assert(others(original.take(0), key) =~= Seq::<u64>::empty());
        }
        while i < self.usage_order.len()
            invariant
                i <= original.len(),
                self.usage_order@ == original,
                self.entries@ == old(self)@.entries,
                original == old(self)@.order,
                kept@ == others(original.take(i as int), key),
            decreases original.len() - i,
        {
            let k = self.usage_order[i];
            proof {
                reveal_with_fuel(Seq::<_>::filter, 1);
                assert(original.take(i + 1).drop_last() =~= original.take(i as int));
            }
            if k != key {
                kept.push_back(k);
            }
            i = i + 1;
        }
        assert(original.take(i as int) =~= original);
        kept.push_back(key);
        self.usage_order = kept;
    }

    /// The value cached under `key`, which becomes the most recently used.
    pub fn get(&mut self, key: u64) -> (r: Option<V>)
        where
            V: Clone,
        ensures
            match r {
                Some(value) => old(self)@.entries.contains_key(key) && cloned(old(self)@.entries[key], value),
                None => !old(self)@.entries.contains_key(key),
            },
            final(self)@ == old(self)@.looked_up(key),
            old(self).well_formed() ==> final(self).well_formed(),
    {
        let ghost before = self@;
        let found = match self.entries.get(&key) {
            Some(value) => Some(value.clone()),
            None => None,
        };
        if found.is_some() {
            proof {
                if before.well_formed() {
                    lemma_touched(before.order, key);
                }
            }
            self.touch(key);
            proof {
                if before.well_formed() {
                    assert(before.entries.dom().contains(key));
                    assert(before.order.to_set().insert(key) =~= before.order.to_set());
                    assert(self@.order.to_set() =~= self@.entries.dom());
                }
            }
        }
        found
    }

    /// Stores `value` under `key` as the most recently used, evicting the least
    /// recently used while the cache is over capacity.
    pub fn insert(&mut self, key: u64, value: V)
        requires
            old(self).well_formed(),
        ensures
            final(self)@ == old(self)@.stored(key, value),
            final(self).well_formed(),
    {
        let ghost before = self@;
        self.entries.insert(key, value);
        proof {
            lemma_touched(before.order, key);
        }
        self.touch(key);
        proof {
            assert(self@.order.to_set() =~= self@.entries.dom());
            vstd::seq_lib::seq_to_set_is_finite(self@.order);
            self@.order.unique_seq_to_set();
        }
        while self.entries.len() > BLURRED_COVER_CACHE_CAPACITY
            invariant
                self@.order.no_duplicates(),
                self@.order.to_set() == self@.entries.dom(),
                self@.order.len() == self@.entries.len(),
                evicted(self@.entries, self@.order) == before.stored(key, value),
            decreases self@.order.len(),
        {
            let ghost prior_order = self@.order;
            let oldest = self.usage_order.pop_front();
            match oldest {
                Some(k) => {
                    self.entries.remove(&k);
                    proof {
                        assert(prior_order[0] == k);
                        assert(self@.order =~= prior_order.drop_first());
                        assert forall|i: int, j: int| 0 <= i < self@.order.len() && 0 <= j < self@.order.len()
                            && i != j implies self@.order[i] != self@.order[j] by {
                            assert(prior_order[i + 1] != prior_order[j + 1]);
                        }
                        assert forall|x: u64| #[trigger] self@.order.to_set().contains(x) <==> self@.entries.dom().contains(x) by {
                            if self@.order.contains(x) {
                                let i = choose|i: int| 0 <= i < self@.order.len() && self@.order[i] == x;
                                assert(prior_order[i + 1] == x);
                                assert(prior_order.contains(x));
                                assert(x != k);
                            }
                            if self@.entries.dom().contains(x) {
                                assert(prior_order.to_set().contains(x));
                                let i = choose|i: int| 0 <= i < prior_order.len() && prior_order[i] == x;
                                assert(i != 0);
                                assert(self@.order[i - 1] == x);
                            }
                        }
                        assert(self@.order.to_set() =~= self@.entries.dom());
                        vstd::seq_lib::seq_to_set_is_finite(self@.order);
                        self@.order.unique_seq_to_set();
                    }
                },
                None => {
                    proof {
                        assert(self@.order.to_set() =~= Set::<u64>::empty());
                    }
                },
            }
        }
    }
}

/// The cover just stored is cached, under its key, as the most recently used:
/// eviction takes only older entries.
pub proof fn law_stored_cover_is_cached<V>(cache: CacheView<V>, key: u64, value: V)
    requires
        cache.well_formed(),
    ensures
        cache.stored(key, value).well_formed(),
        cache.stored(key, value).entries.contains_key(key),
        cache.stored(key, value).entries[key] == value,
        cache.stored(key, value).order.last() == key,
{
    let m1 = cache.entries.insert(key, value);
    let o1 = touched(cache.order, key);
    lemma_touched(cache.order, key);
    assert(o1.to_set() =~= m1.dom());
    vstd::seq_lib::seq_to_set_is_finite(o1);
    o1.unique_seq_to_set();
    vstd::seq_lib::seq_to_set_is_finite(cache.order);
    cache.order.unique_seq_to_set();
    assert(o1.len() <= BLURRED_COVER_CACHE_CAPACITY + 1) by {
        broadcast use vstd::set::group_set_axioms;
        assert(m1.dom() =~= cache.entries.dom().insert(key));
    }
    if m1.len() > BLURRED_COVER_CACHE_CAPACITY {
        assert(o1.len() == BLURRED_COVER_CACHE_CAPACITY + 1);
        assert(o1[0] != key) by {
            assert(o1[o1.len() - 1] == key);
        }
        let m2 = m1.remove(o1[0]);
        let o2 = o1.drop_first();
        assert(o1.contains(o1[0]));
        assert(m2.len() == BLURRED_COVER_CACHE_CAPACITY);
        assert(o2.last() == key);
        assert forall|i: int, j: int| 0 <= i < o2.len() && 0 <= j < o2.len() && i != j implies o2[i] != o2[j] by {
            assert(o1[i + 1] != o1[j + 1]);
        }
        assert forall|x: u64| #[trigger] o2.to_set().contains(x) <==> m2.dom().contains(x) by {
            if o2.contains(x) {
                let i = choose|i: int| 0 <= i < o2.len() && o2[i] == x;
                assert(o1[i + 1] == x);
                assert(o1.contains(x));
            }
            if m2.dom().contains(x) {
                assert(o1.to_set().contains(x));
                let i = choose|i: int| 0 <= i < o1.len() && o1[i] == x;
                assert(i != 0);
                assert(o2[i - 1] == x);
            }
        }
        assert(o2.to_set() =~= m2.dom());
        assert(evicted(m2, o2) == (CacheView { entries: m2, order: o2 }));
    }
}

/// The text shown for a cover's byte size: in MB from one mebibyte up, in KB from
/// one kibibyte up (one decimal, as std formats a 64-bit float with `{:.1}`),
/// otherwise in whole bytes.
pub open spec fn byte_size_text(bytes: nat) -> Seq<char> {
    if bytes >= 1048576 {
        one_decimal(round_half_even(as_f64(bytes) * 10, 1048576)) + seq![' ', 'M', 'B']
    } else if bytes >= 1024 {
        one_decimal(round_half_even(as_f64(bytes) * 10, 1024)) + seq![' ', 'K', 'B']
    } else {
        decimal(bytes) + seq![' ', 'B']
    }
}

/// The text shown for a cover's byte size (see [`byte_size_text`]).
pub fn format_byte_size(bytes: u64) -> (r: String)
    ensures
        r@ == byte_size_text(bytes as nat),
{
    if bytes >= 1024 {
        let text = crate::services::tag_reader::format_file_size(bytes);
        return text;
    }
    let mut out = String::new();
    push_decimal(&mut out, bytes);
    push_char(&mut out, ' ');
    push_char(&mut out, 'B');
    assert(out@ =~= byte_size_text(bytes as nat));
    out
}

/// The hash that std's `DefaultHasher`, made by `new` or `default`, gives for a
/// byte slice (its length, then its bytes). std documents that every hasher so
/// made is the same as every other, so within the program the value depends on
/// the bytes alone.
pub uninterp spec fn default_hash(bytes: Seq<u8>) -> u64;

/// std's `BuildHasher::hash_one` with the default hasher (`DefaultHasher`): the
/// hash of the bytes, [`default_hash`].
#[verifier::external_body]
fn hash_bytes(bytes: &[u8]) -> (r: u64)
    ensures
        r == default_hash(bytes@),
{
    std::hash::BuildHasher::hash_one(&std::hash::BuildHasherDefault::<std::collections::hash_map::DefaultHasher>::default(), bytes)
}

/// The key under which a cover's blurred background is cached: the hash of its
/// bytes; for a chosen image file, of the file's bytes when they could be read.
/// A removed or unavailable cover has none.
pub fn cover_hash(cover: &CoverDraft, file_bytes: Option<&[u8]>) -> (r: Option<u64>)
    ensures
        r == match cover@ {
            CoverView::Embedded(bytes) => Some(default_hash(bytes)),
            CoverView::External(_) => match file_bytes {
                Some(bytes) => Some(default_hash(bytes@)),
                None => None,
            },
            _ => None,
        },
{
    match cover {
        CoverDraft::Embedded(bytes) => Some(hash_bytes(bytes.as_slice())),
        CoverDraft::External(_) => match file_bytes {
            Some(bytes) => Some(hash_bytes(bytes)),
            None => None,
        },
        CoverDraft::Unavailable | CoverDraft::Removed => None,
    }
}

/// The line under the cover preview: the image's size in pixels and its byte
/// size (or "unknown size"), or "no image" when it could not be decoded.
pub open spec fn cover_details_of(localization: Localization, dimensions: Option<(u32, u32)>, byte_size: Option<u64>) -> Seq<char> {
    let entries = pair_views(localization.translations@);
    match dimensions {
        None => translated(entries, "cover.no_image"@),
        Some((width, height)) => decimal(width as nat) + seq![' ', '×', ' '] + decimal(height as nat) + seq![' ', 'p', 'x', ' ', '·', ' ']
            + match byte_size {
            Some(bytes) => byte_size_text(bytes as nat),
            None => translated(entries, "cover.unknown_size"@),
        },
    }
}

/// The line under the cover preview (see [`cover_details_of`]).
pub fn cover_details(localization: &Localization, dimensions: Option<(u32, u32)>, byte_size: Option<u64>) -> (r: String)
    ensures
        r@ == cover_details_of(*localization, dimensions, byte_size),
{
    let (width, height) = match dimensions {
        None => return tr(localization, "cover.no_image"),
        Some(d) => d,
    };
    let size = match byte_size {
        Some(bytes) => format_byte_size(bytes),
        None => tr(localization, "cover.unknown_size"),
    };
    let mut out = String::new();
    push_decimal(&mut out, width as u64);
    push_char(&mut out, ' ');
    push_char(&mut out, '×');
    push_char(&mut out, ' ');
    push_decimal(&mut out, height as u64);
    push_char(&mut out, ' ');
    push_char(&mut out, 'p');
    push_char(&mut out, 'x');
    push_char(&mut out, ' ');
    push_char(&mut out, '·');
    push_char(&mut out, ' ');
    push_char_all(&mut out, size.as_str());
    assert(out@ =~= cover_details_of(*localization, dimensions, byte_size));
    out
}

} // verus!
