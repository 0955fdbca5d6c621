//! Thumbnail-cache logic: content-addressed file names derived from a digest
//! of the absolute source path, and the staleness rule that decides whether a
//! cached thumbnail may be reused.
//!
//! The on-disk store itself is plain file I/O and lives with the caller; the
//! [`ThumbCache`] type models the store's contract — a map from source path
//! to a saved thumbnail stamped with the cache entry's modification time —
//! so that the reuse rule is stated and proved once, over plain values.

use vstd::prelude::*;
use vstd::string::StringExecFns;
use md5::Digest;

verus! {

/// The 16-byte digest that the outside hash computes for a path; it depends
/// on the path's characters alone.
pub uninterp spec fn md5_of(path: Seq<char>) -> Seq<u8>;

/// Relies on `md5::Md5::digest` (the RustCrypto `md-5` crate): a 16-byte
/// digest that is a function of the input bytes alone.
#[verifier::external_body]
fn md5_digest(path: &str) -> (r: Vec<u8>)
    ensures
        r@ == md5_of(path@),
        r@.len() == 16,
{
    md5::Md5::digest(path.as_bytes()).to_vec()
}

/// The lowercase hex character for a value below 16.
pub open spec fn hex_digit_char(d: u8) -> char {
    if d == 0 {
        '0'
    } else if d == 1 {
        '1'
    } else if d == 2 {
        '2'
    } else if d == 3 {
        '3'
    } else if d == 4 {
        '4'
    } else if d == 5 {
        '5'
    } else if d == 6 {
        '6'
    } else if d == 7 {
        '7'
    } else if d == 8 {
        '8'
    } else if d == 9 {
        '9'
    } else if d == 10 {
        'a'
    } else if d == 11 {
        'b'
    } else if d == 12 {
        'c'
    } else if d == 13 {
        'd'
    } else if d == 14 {
        'e'
    } else {
        'f'
    }
}

/// Lowercase hex rendering of a byte sequence, two characters per byte.
pub open spec fn hex_of(bytes: Seq<u8>) -> Seq<char>
    decreases bytes.len(),
{
    if bytes.len() == 0 {
        Seq::empty()
    } else {
        hex_of(bytes.drop_last()) + seq![
            hex_digit_char(bytes.last() / 16),
            hex_digit_char(bytes.last() % 16),
        ]
    }
}

fn hex_char(d: u8) -> (r: &'static str)
    requires
        d < 16,
    ensures
        r@ == seq![hex_digit_char(d)],
{
    let r: &'static str = if d == 0 {
        "0"
    } else if d == 1 {
        "1"
    } else if d == 2 {
        "2"
    } else if d == 3 {
        "3"
    } else if d == 4 {
        "4"
    } else if d == 5 {
        "5"
    } else if d == 6 {
        "6"
    } else if d == 7 {
        "7"
    } else if d == 8 {
        "8"
    } else if d == 9 {
        "9"
    } else if d == 10 {
        "a"
    } else if d == 11 {
        "b"
    } else if d == 12 {
        "c"
    } else if d == 13 {
        "d"
    } else if d == 14 {
        "e"
    } else {
        "f"
    };
    proof {
        reveal_strlit("0");
        reveal_strlit("1");
        reveal_strlit("2");
        reveal_strlit("3");
        reveal_strlit("4");
        reveal_strlit("5");
        reveal_strlit("6");
        reveal_strlit("7");
        reveal_strlit("8");
        reveal_strlit("9");
        reveal_strlit("a");
        reveal_strlit("b");
        reveal_strlit("c");
        reveal_strlit("d");
        reveal_strlit("e");
        reveal_strlit("f");
        assert(r@ =~= seq![hex_digit_char(d)]);
    }
    r
}

/// Render bytes as lowercase hex.
pub fn hex_string(bytes: &Vec<u8>) -> (r: String)
    ensures
        r@ == hex_of(bytes@),
{
    let mut s = String::new();
    let mut i: usize = 0;
    while i < bytes.len()
        invariant
            i <= bytes@.len(),
            s@ == hex_of(bytes@.subrange(0, i as int)),
        decreases bytes@.len() - i,
    {
        let b = bytes[i];
        s.append(hex_char(b / 16));
        s.append(hex_char(b % 16));
        proof {
            let pre = bytes@.subrange(0, i as int + 1);
            assert(pre.drop_last() =~= bytes@.subrange(0, i as int));
            assert(pre.last() == bytes@[i as int]);
            assert(s@ =~= hex_of(pre));
        }
        i = i + 1;
    }
    proof {
        assert(bytes@.subrange(0, bytes@.len() as int) =~= bytes@);
    }
    s
}

/// The cache file name for a source path: the hex digest of the path,
/// with a fixed image-file suffix. Stable across runs, so repeated saves
/// for one source overwrite one slot.
pub fn cache_file_name(path: &str) -> (r: String)
    ensures
        r@ == hex_of(md5_of(path@)) + ".png"@,
{
    let digest = md5_digest(path);
    let mut s = hex_string(&digest);
    s.append(".png");
    s
}

/// The staleness rule: a cached thumbnail may be used only if its own
/// modification time is not older than the source file's.
pub fn cache_is_fresh(cache_mtime: u64, source_mtime: u64) -> (r: bool)
    ensures
        r == (cache_mtime >= source_mtime),
{
    cache_mtime >= source_mtime
}

struct CacheSlot {
    key: String,
    saved: u64,
    pixels: Vec<u8>,
}

/// What one slot holds, as plain values.
pub ghost struct SlotModel {
    pub saved: u64,
    pub pixels: Seq<u8>,
}

/// The logical content of the store: the slot for a key, if any, scanning
/// slots in order.
pub open spec fn slot_for(
    slots: Seq<(Seq<char>, SlotModel)>,
    key: Seq<char>,
    i: int,
) -> Option<SlotModel>
    decreases slots.len() - i,
{
    if i < 0 || i >= slots.len() {
        None
    } else if slots[i].0 == key {
        Some(slots[i].1)
    } else {
        slot_for(slots, key, i + 1)
    }
}

/// A model of the thumbnail store: a sequence of slots, one per source
/// path, each stamped with the modification time it was saved at.
pub struct ThumbCache {
    slots: Vec<CacheSlot>,
}

impl View for ThumbCache {
    type V = Seq<(Seq<char>, SlotModel)>;

    closed spec fn view(&self) -> Seq<(Seq<char>, SlotModel)> {
        self.slots@.map_values(
            |s: CacheSlot| (s.key@, SlotModel { saved: s.saved, pixels: s.pixels@ }),
        )
    }
}

/// The entry the store holds for `key`.
pub open spec fn entry_of(c: ThumbCache, key: Seq<char>) -> Option<SlotModel> {
    slot_for(c@, key, 0)
}

impl ThumbCache {
    /// No two slots share a key.
    pub open spec fn inv(&self) -> bool {
        forall|i: int, j: int|
            0 <= i < j < self@.len() ==> self@[i].0 != self@[j].0
    }

    pub fn new() -> (c: Self)
        ensures
            c.inv(),
            c@.len() == 0,
    {
        let c = ThumbCache { slots: Vec::new() };
        proof {
            assert(c@ =~= Seq::<(Seq<char>, SlotModel)>::empty());
        }
        c
    }

    /// Save a thumbnail for `key`, stamped `saved`: the slot for `key` is
    /// created or overwritten; every other key's slot is untouched.
    pub fn save(&mut self, key: &str, saved: u64, pixels: Vec<u8>)
        requires
            old(self).inv(),
        ensures
            final(self).inv(),
            entry_of(*final(self), key@) == Some(
                SlotModel { saved, pixels: pixels@ },
            ),
            forall|k: Seq<char>|
                k != key@ ==> #[trigger] entry_of(*final(self), k) == entry_of(*old(self), k),
    {
        let ghost old_view = old(self)@;
        let mut i: usize = 0;
        while i < self.slots.len()
            invariant
                self.inv(),
                self@ == old_view,
                old_view == old(self)@,
                i <= self@.len(),
                forall|j: int| 0 <= j < i ==> self@[j].0 != key@,
            decreases self.slots@.len() - i,
        {
            if string_eq_str(&self.slots[i].key, key) {
                self.slots[i] = CacheSlot { key: key.to_owned(), saved, pixels };
                proof {
                    let m = SlotModel { saved, pixels: pixels@ };
                    let upd = old_view.update(i as int, (key@, m));
                    assert(self@ =~= upd);
                    lemma_slot_for_update(old_view, i as int, key@, m);
                    assert forall|k: Seq<char>| k != key@ implies #[trigger] entry_of(
                        *self,
                        k,
                    ) == slot_for(old_view, k, 0) by {
                        assert(slot_for(upd, k, 0) == slot_for(old_view, k, 0));
                    }
                }
                return ;
            }
            i = i + 1;
        }
        self.slots.push(CacheSlot { key: key.to_owned(), saved, pixels });
        proof {
            let m = SlotModel { saved, pixels: pixels@ };
            let pushed = old_view.push((key@, m));
            assert(self@ =~= pushed);
            lemma_slot_for_push(old_view, key@, m);
            assert forall|k: Seq<char>| k != key@ implies #[trigger] entry_of(*self, k)
                == slot_for(old_view, k, 0) by {
                assert(slot_for(pushed, k, 0) == slot_for(old_view, k, 0));
            }
        }
    }

    /// Load the thumbnail for `key`, given the source's current modification
    /// time: the pixels are returned exactly when a slot exists for `key`
    /// and it is not stale.
    pub fn load(&self, key: &str, source_mtime: u64) -> (r: Option<&Vec<u8>>)
        requires
            self.inv(),
        ensures
            match r {
                Some(px) => entry_of(*self, key@) matches Some(m) && m.saved >= source_mtime
                    && px@ == m.pixels,
                None => !(entry_of(*self, key@) matches Some(m) && m.saved >= source_mtime),
            },
    {
        let mut i: usize = 0;
        while i < self.slots.len()
            invariant
                self.inv(),
                i <= self@.len(),
                forall|j: int| 0 <= j < i ==> self@[j].0 != key@,
                slot_for(self@, key@, 0) == slot_for(self@, key@, i as int),
            decreases self.slots@.len() - i,
        {
            if string_eq_str(&self.slots[i].key, key) {
                if self.slots[i].saved >= source_mtime {
                    return Some(&self.slots[i].pixels);
                } else {
                    return None;
                }
            }
            i = i + 1;
        }
        None
    }
}

/// Law: saving a thumbnail and loading it back with the source's
/// modification time unchanged (or any earlier stamp) yields exactly the
/// saved pixels; once the source is modified past the saved stamp, the
/// load yields nothing, forcing regeneration.
pub proof fn lemma_cache_round_trip(
    c: ThumbCache,
    key: Seq<char>,
    saved: u64,
    pixels: Seq<u8>,
    source_mtime: u64,
)
    requires
        entry_of(c, key) == Some(SlotModel { saved, pixels }),
    ensures
        source_mtime <= saved ==> (entry_of(c, key) matches Some(m) && m.saved >= source_mtime
            && m.pixels == pixels),
        source_mtime > saved ==> !(entry_of(c, key) matches Some(m) && m.saved >= source_mtime),
{
}

proof fn lemma_slot_for_update(
    slots: Seq<(Seq<char>, SlotModel)>,
    at: int,
    key: Seq<char>,
    m: SlotModel,
)
    requires
        0 <= at < slots.len(),
        slots[at].0 == key,
        forall|i: int, j: int| 0 <= i < j < slots.len() ==> slots[i].0 != slots[j].0,
    ensures
        slot_for(slots.update(at, (key, m)), key, 0) == Some(m),
        forall|k: Seq<char>|
            k != key ==> #[trigger] slot_for(slots.update(at, (key, m)), k, 0) == slot_for(
                slots,
                k,
                0,
            ),
        forall|i: int, j: int|
            0 <= i < j < slots.update(at, (key, m)).len() ==> slots.update(
                at,
                (key, m),
            )[i].0 != slots.update(at, (key, m))[j].0,
{
    let upd = slots.update(at, (key, m));
    assert forall|i: int| 0 <= i <= at implies slot_for(upd, key, i) == Some(m) by {
        lemma_slot_for_find(upd, key, i, at);
    }
    assert forall|k: Seq<char>| k != key implies #[trigger] slot_for(upd, k, 0) == slot_for(
        slots,
        k,
        0,
    ) by {
        lemma_slot_for_same(slots, upd, k, 0);
    }
}

proof fn lemma_slot_for_find(slots: Seq<(Seq<char>, SlotModel)>, key: Seq<char>, i: int, at: int)
    requires
        0 <= i <= at < slots.len(),
        slots[at].0 == key,
        forall|j: int| 0 <= j < at ==> slots[j].0 != key,
    ensures
        slot_for(slots, key, i) == Some(slots[at].1),
    decreases at - i,
{
    if i < at {
        lemma_slot_for_find(slots, key, i + 1, at);
    }
}

proof fn lemma_slot_for_same(
    a: Seq<(Seq<char>, SlotModel)>,
    b: Seq<(Seq<char>, SlotModel)>,
    key: Seq<char>,
    i: int,
)
    requires
        a.len() == b.len(),
        forall|j: int|
            0 <= j < a.len() ==> ((#[trigger] a[j]).0 == key <==> (#[trigger] b[j]).0 == key),
        forall|j: int| 0 <= j < a.len() && (#[trigger] a[j]).0 == key ==> a[j] == b[j],
    ensures
        slot_for(a, key, i) == slot_for(b, key, i),
    decreases a.len() - i,
{
    if 0 <= i < a.len() {
        lemma_slot_for_same(a, b, key, i + 1);
    }
}

proof fn lemma_slot_for_push(slots: Seq<(Seq<char>, SlotModel)>, key: Seq<char>, m: SlotModel)
    requires
        forall|j: int| 0 <= j < slots.len() ==> slots[j].0 != key,
    ensures
        slot_for(slots.push((key, m)), key, 0) == Some(m),
        forall|k: Seq<char>|
            k != key ==> #[trigger] slot_for(slots.push((key, m)), k, 0) == slot_for(slots, k, 0),
{
    let p = slots.push((key, m));
    lemma_slot_for_find(p, key, 0, slots.len() as int);
    assert forall|k: Seq<char>| k != key implies #[trigger] slot_for(p, k, 0) == slot_for(
        slots,
        k,
        0,
    ) by {
        lemma_slot_for_push_other(slots, key, m, k, 0);
    }
}

proof fn lemma_slot_for_push_other(
    slots: Seq<(Seq<char>, SlotModel)>,
    key: Seq<char>,
    m: SlotModel,
    k: Seq<char>,
    i: int,
)
    requires
        k != key,
    ensures
        slot_for(slots.push((key, m)), k, i) == slot_for(slots, k, i),
    decreases slots.len() + 1 - i,
{
    if 0 <= i <= slots.len() {
        if i < slots.len() {
            lemma_slot_for_push_other(slots, key, m, k, i + 1);
        }
    }
}

/// String equality, decided by the standard comparison.
fn string_eq_str(a: &String, b: &str) -> (r: bool)
    ensures
        r == (a@ == b@),
{
    let bs: String = b.to_owned();
    *a == bs
}

} // verus!
