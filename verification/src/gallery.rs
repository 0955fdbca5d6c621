//! The gallery: the polling consumer of a scan, holding the entries shown
//! to the user, newest first.
//!
//! Thumbnails arrive out of order (files decode in parallel), so each
//! arrival is placed by descending modification time; the displayed order
//! never depends on arrival order.

use vstd::prelude::*;
use vstd::multiset::Multiset;
use vstd::seq_lib::lemma_multiset_commutative;
use crate::scan::{ImageLoader, Poll, ScanItem};
use crate::selection::Selection;

verus! {

/// One gallery entry: the source's identity and sizes, as plain values.
/// The decoded thumbnail itself travels in the [`ScanItem`] that `poll`
/// hands back, for the caller to turn into whatever its display needs.
pub struct ImageEntry {
    pub name: String,
    pub modified: u64,
    pub original_w: u32,
    pub original_h: u32,
}

/// A gallery entry as plain values.
pub ghost struct ImageEntryModel {
    pub name: Seq<char>,
    pub modified: u64,
    pub original_w: u32,
    pub original_h: u32,
}

impl View for ImageEntry {
    type V = ImageEntryModel;

    open spec fn view(&self) -> ImageEntryModel {
        ImageEntryModel {
            name: self.name@,
            modified: self.modified,
            original_w: self.original_w,
            original_h: self.original_h,
        }
    }
}

/// What the gallery currently shows.
pub enum State {
    /// No scan has been started yet.
    Empty,
    /// The scan failed as a whole.
    Error(String),
    /// The entries decoded so far (the scan may still be running).
    Loaded(Vec<ImageEntry>),
}

/// The entries of a sequence, as plain values.
pub open spec fn entry_views(es: Seq<ImageEntry>) -> Seq<ImageEntryModel> {
    es.map_values(|e: ImageEntry| e@)
}

/// Descending by modification time: newest first.
pub open spec fn sorted_desc(es: Seq<ImageEntryModel>) -> bool {
    forall|i: int, j: int| 0 <= i <= j < es.len() ==> es[i].modified >= es[j].modified
}

/// The entry that one scan item contributes.
pub open spec fn entry_of_item(it: ScanItem) -> ImageEntryModel {
    ImageEntryModel {
        name: it.name@,
        modified: it.modified,
        original_w: it.original_w,
        original_h: it.original_h,
    }
}

/// The entries that a batch of scan items contributes.
pub open spec fn entries_of_items(items: Seq<ScanItem>) -> Seq<ImageEntryModel> {
    items.map_values(|it: ScanItem| entry_of_item(it))
}

/// The gallery's state and, while a scan runs, the scan's polling end.
pub struct Gallery {
    state: State,
    loader: Option<ImageLoader>,
}

impl Gallery {
    /// Whether a scan is still being polled.
    pub closed spec fn is_loading_spec(&self) -> bool {
        self.loader is Some
    }

    /// What the gallery currently shows.
    pub closed spec fn gstate(&self) -> State {
        self.state
    }

    /// The entries are always sorted newest first, and a gallery showing a
    /// scan error is no longer polling that scan.
    pub open spec fn inv(&self) -> bool {
        &&& (self.gstate() matches State::Loaded(v) ==> sorted_desc(entry_views(v@)))
        &&& (self.gstate() is Error ==> !self.is_loading_spec())
    }

    pub fn new() -> (g: Self)
        ensures
            g.inv(),
            !g.is_loading_spec(),
            g.gstate() is Empty,
    {
        Gallery { state: State::Empty, loader: None }
    }

    /// Adopt a freshly started scan: the previous contents are replaced
    /// wholesale by an empty, loading gallery.
    pub fn load(&mut self, loader: ImageLoader)
        ensures
            final(self).inv(),
            final(self).is_loading_spec(),
            final(self).gstate() matches State::Loaded(v) && v@.len() == 0,
    {
        self.loader = Some(loader);
        let entries: Vec<ImageEntry> = Vec::new();
        proof {
            assert(entry_views(entries@) =~= Seq::<ImageEntryModel>::empty());
        }
        self.state = State::Loaded(entries);
    }

    /// Reload: adopt a fresh scan and clear the selection with it — the
    /// old gallery indices would be stale and unsafe to keep.
    pub fn reload(&mut self, loader: ImageLoader, selection: &mut Selection)
        ensures
            final(self).inv(),
            final(self).is_loading_spec(),
            final(self).gstate() matches State::Loaded(v) && v@.len() == 0,
            final(selection).inv(),
            final(selection)@ == Seq::<usize>::empty(),
    {
        self.load(loader);
        selection.clear();
    }

    pub fn is_loading(&self) -> (r: bool)
        ensures
            r == self.is_loading_spec(),
    {
        self.loader.is_some()
    }

    pub fn state(&self) -> (r: &State)
        ensures
            *r == self.gstate(),
    {
        &self.state
    }

    pub fn entries(&self) -> (r: Option<&Vec<ImageEntry>>)
        ensures
            match r {
                Some(v) => self.gstate() == State::Loaded(*v),
                None => !(self.gstate() is Loaded),
            },
    {
        match &self.state {
            State::Loaded(entries) => Some(entries),
            _ => None,
        }
    }

    /// The gallery's transition for one observed scan event: an arrived
    /// thumbnail becomes an entry, placed newest-first, and the item —
    /// thumbnail included — is handed back for the caller's display layer;
    /// a scan-level error replaces the contents with exactly that error
    /// state and ends loading; `Done` ends loading, keeping the entries
    /// (an empty list if nothing ever arrived); `Pending` changes nothing.
    pub fn on_event(&mut self, ev: Poll) -> (fresh: Option<ScanItem>)
        requires
            old(self).inv(),
            old(self).is_loading_spec(),
        ensures
            final(self).inv(),
            match ev {
                Poll::Image(item) => {
                    &&& fresh == Some(item)
                    &&& final(self).is_loading_spec()
                    &&& (final(self).gstate() matches State::Loaded(v1) && (match old(
                        self,
                    ).gstate() {
                        State::Loaded(v0) => entry_views(v1@).to_multiset() == entry_views(
                            v0@,
                        ).to_multiset().insert(entry_of_item(item)),
                        _ => entry_views(v1@) == seq![entry_of_item(item)],
                    }))
                },
                Poll::Error(e) => !final(self).is_loading_spec() && final(self).gstate()
                    == State::Error(e) && fresh is None,
                Poll::Pending => *final(self) == *old(self) && fresh is None,
                Poll::Done => {
                    &&& !final(self).is_loading_spec()
                    &&& fresh is None
                    &&& (match old(self).gstate() {
                        State::Loaded(v0) => final(self).gstate() matches State::Loaded(v1)
                            && v1@ == v0@,
                        _ => final(self).gstate() matches State::Loaded(v1) && v1@.len() == 0,
                    })
                },
            },
    {
        match ev {
            Poll::Image(item) => {
                let entry = ImageEntry {
                    name: item.name.clone(),
                    modified: item.modified,
                    original_w: item.original_w,
                    original_h: item.original_h,
                };
                proof {
                    assert(entry@ == entry_of_item(item));
                }
                match &mut self.state {
                    State::Loaded(v) => {
                        insert_entry(v, entry);
                    },
                    _ => {
                        let mut v: Vec<ImageEntry> = Vec::new();
                        v.push(entry);
                        proof {
                            assert(entry_views(v@) =~= seq![entry_of_item(item)]);
                        }
                        self.state = State::Loaded(v);
                    },
                }
                Some(item)
            },
            Poll::Error(e) => {
                self.state = State::Error(e);
                self.loader = None;
                None
            },
            Poll::Pending => None,
            Poll::Done => {
                self.loader = None;
                match &self.state {
                    State::Loaded(_) => {},
                    _ => {
                        let v: Vec<ImageEntry> = Vec::new();
                        proof {
                            assert(entry_views(v@) =~= Seq::<ImageEntryModel>::empty());
                        }
                        self.state = State::Loaded(v);
                    },
                }
                None
            },
        }
    }

    /// Drain what the scan has produced so far, without blocking, stepping
    /// through [`Gallery::on_event`], whose contract fixes each
    /// transition. The drained items are handed back for the caller's
    /// display layer; entries only ever grow by what arrived, and polling
    /// an idle gallery changes nothing. At most a bounded batch is taken
    /// per call, so a fast scan can never hold the polling thread; the
    /// next call drains on.
    pub fn poll(&mut self) -> (fresh: Vec<ScanItem>)
        requires
            old(self).inv(),
        ensures
            final(self).inv(),
            !old(self).is_loading_spec() ==> *final(self) == *old(self) && fresh@.len() == 0,
            final(self).gstate() is Error ==> !final(self).is_loading_spec(),
            old(self).gstate() matches State::Loaded(v0) ==> final(self).gstate()
                matches State::Loaded(v1) ==> entry_views(v1@).to_multiset() == entry_views(
                v0@,
            ).to_multiset().add(entries_of_items(fresh@).to_multiset()),
    {
        let mut fresh: Vec<ScanItem> = Vec::new();
        proof {
            let em = entries_of_items(fresh@);
            assert(em =~= Seq::<ImageEntryModel>::empty());
            em.to_multiset_ensures();
            assert(em.to_multiset() =~= Multiset::<ImageEntryModel>::empty()) by {
                assert forall|x: ImageEntryModel| em.to_multiset().count(x) == 0 by {
                    if em.to_multiset().count(x) > 0 {
                        assert(em.contains(x));
                    }
                }
            }
            match old(self).gstate() {
                State::Loaded(v0) => {
                    assert(entry_views(v0@).to_multiset().add(em.to_multiset()) =~= entry_views(
                        v0@,
                    ).to_multiset());
                },
                _ => {},
            }
        }
        if self.loader.is_none() {
            return fresh;
        }
        let mut n: usize = 0;
        while n < crate::jobs::DRAIN_BATCH
            invariant
                self.inv(),
                self.is_loading_spec(),
                old(self).is_loading_spec(),
                old(self).gstate() is Loaded ==> self.gstate() is Loaded,
                old(self).gstate() matches State::Loaded(v0) ==> self.gstate()
                    matches State::Loaded(v1) ==> entry_views(v1@).to_multiset() == entry_views(
                    v0@,
                ).to_multiset().add(entries_of_items(fresh@).to_multiset()),
            decreases crate::jobs::DRAIN_BATCH - n,
        {
            n = n + 1;
            let ev = match &self.loader {
                Some(l) => l.poll(),
                None => {
                    return fresh;
                },
            };
            let pending = matches!(ev, Poll::Pending);
            let ghost old_fresh = fresh@;
            match self.on_event(ev) {
                Some(item) => {
                    let ghost entry_model = entry_of_item(item);
                    fresh.push(item);
                    proof {
                        assert(entries_of_items(fresh@) =~= entries_of_items(old_fresh).push(
                            entry_model,
                        ));
                        entries_of_items(old_fresh).to_multiset_ensures();
                        match old(self).gstate() {
                            State::Loaded(v0) => {
                                match self.gstate() {
                                    State::Loaded(v1) => {
                                        lemma_multiset_add_insert(
                                            entry_views(v0@).to_multiset(),
                                            entries_of_items(old_fresh).to_multiset(),
                                            entry_model,
                                        );
                                    },
                                    _ => {},
                                }
                            },
                            _ => {},
                        }
                    }
                },
                None => {},
            }
            if pending || !self.is_loading() {
                return fresh;
            }
        }
        fresh
    }
}

proof fn lemma_multiset_add_insert(
    a: Multiset<ImageEntryModel>,
    b: Multiset<ImageEntryModel>,
    x: ImageEntryModel,
)
    ensures
        a.add(b).insert(x) == a.add(b.insert(x)),
{
    assert(a.add(b).insert(x) =~= a.add(b.insert(x)));
}

/// Place one entry among entries sorted newest-first, after any with the
/// same timestamp, keeping the order.
fn insert_entry(v: &mut Vec<ImageEntry>, e: ImageEntry)
    requires
        sorted_desc(entry_views(old(v)@)),
    ensures
        sorted_desc(entry_views(final(v)@)),
        entry_views(final(v)@).to_multiset() == entry_views(old(v)@).to_multiset().insert(e@),
        final(v)@.len() == old(v)@.len() + 1,
{
    let mut i: usize = 0;
    while i < v.len() && v[i].modified >= e.modified
        invariant
            i <= v@.len(),
            v@ == old(v)@,
            forall|j: int| 0 <= j < i ==> entry_views(v@)[j].modified >= e@.modified,
        decreases v@.len() - i,
    {
        i = i + 1;
    }
    let ghost old_views = entry_views(v@);
    proof {
        assert(i as int == old_views.len() || old_views[i as int].modified < e@.modified);
    }
    v.insert(i, e);
    proof {
        assert(entry_views(v@) =~= old_views.insert(i as int, e@));
        old_views.insert_ensures(i as int, e@);
        lemma_entry_insert_multiset(old_views, i as int, e@);
        let nv = entry_views(v@);
        assert forall|a: int, b: int|
            0 <= a <= b < nv.len() implies nv[a].modified >= nv[b].modified by {
            if b < i {
                assert(nv[a] == old_views[a] && nv[b] == old_views[b]);
            } else if a < i as int && b == i as int {
                assert(nv[a] == old_views[a] && nv[b] == e@);
            } else if a == i as int && b == i as int {
            } else if a == i as int && b > i as int {
                assert(nv[b] == old_views[b - 1]);
                assert(old_views[i as int].modified >= old_views[b - 1].modified);
            } else if a < i as int && b > i as int {
                assert(nv[a] == old_views[a] && nv[b] == old_views[b - 1]);
            } else {
                assert(nv[a] == old_views[a - 1] && nv[b] == old_views[b - 1]);
            }
        }
    }
}

proof fn lemma_entry_insert_multiset(s: Seq<ImageEntryModel>, pos: int, elt: ImageEntryModel)
    requires
        0 <= pos <= s.len(),
    ensures
        s.insert(pos, elt).to_multiset() == s.to_multiset().insert(elt),
{
    let a = s.subrange(0, pos);
    let b = s.subrange(pos, s.len() as int);
    assert(s.insert(pos, elt) =~= a.push(elt) + b);
    assert(s =~= a + b);
    lemma_multiset_commutative(a.push(elt), b);
    lemma_multiset_commutative(a, b);
    a.to_multiset_ensures();
    assert(s.insert(pos, elt).to_multiset() =~= s.to_multiset().insert(elt));
}

} // verus!
