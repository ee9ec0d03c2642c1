//! Command history: a bounded, most-recently-used list of submitted lines
//! with a navigation index for browsing it.
use vstd::prelude::*;

use crate::line::copy_bytes;

verus! {

/// The number of lines that [`LRUHistory`] keeps.
pub const HISTORY_LEN: usize = 16;

/// A line that does not fit in a history entry.
pub struct CapacityError;

/// What the engine needs from a history.
///
/// The navigation index counts the steps taken back from the line being
/// edited: `go_back` moves one step toward older entries, `go_forward` one
/// step toward newer ones, and `push` resets it.
pub trait History<const CMD_LEN: usize>: Sized {
    /// The implementation's invariant.
    spec fn inv(&self) -> bool;

    /// `next` is this history after `line` was pushed.
    spec fn pushed(&self, line: Seq<u8>, next: &Self) -> bool;

    /// The entry that `go_back` returns in this state, if any.
    spec fn back_entry(&self) -> Option<Seq<u8>>;

    /// `next` is this history after a `go_back`.
    spec fn stepped_back(&self, next: &Self) -> bool;

    /// The entry that `go_forward` returns in this state, if any.
    spec fn forward_entry(&self) -> Option<Seq<u8>>;

    /// `next` is this history after a `go_forward`.
    spec fn stepped_forward(&self, next: &Self) -> bool;

    /// Records `line` as the most recent entry; fails, changing nothing, when
    /// it is longer than `CMD_LEN` bytes.
    fn push(&mut self, line: &[u8]) -> (r: Result<(), CapacityError>)
        requires
            old(self).inv(),
        ensures
            final(self).inv(),
            r is Ok <==> line@.len() <= CMD_LEN,
            r is Ok ==> old(self).pushed(line@, &*final(self)),
            r is Err ==> *final(self) == *old(self),
    ;

    /// One step toward older entries.
    fn go_back(&mut self) -> (r: Option<Vec<u8>>)
        requires
            old(self).inv(),
        ensures
            final(self).inv(),
            old(self).stepped_back(&*final(self)),
            match r {
                Some(l) => old(self).back_entry() == Some(l@) && l@.len() <= CMD_LEN,
                None => old(self).back_entry() is None,
            },
    ;

    /// One step toward newer entries.
    fn go_forward(&mut self) -> (r: Option<Vec<u8>>)
        requires
            old(self).inv(),
        ensures
            final(self).inv(),
            old(self).stepped_forward(&*final(self)),
            match r {
                Some(l) => old(self).forward_entry() == Some(l@) && l@.len() <= CMD_LEN,
                None => old(self).forward_entry() is None,
            },
    ;
}

#[verifier::external_type_specification]
#[verifier::external_body]
#[verifier::reject_recursive_types(T)]
pub struct ExLRUCache<T, const N: usize>(uluru::LRUCache<T, N>);

/// The lines held by an `LRUCache`, most recently used first.
pub uninterp spec fn cached_lines(c: uluru::LRUCache<Vec<u8>, HISTORY_LEN>) -> Seq<Seq<u8>>;

/// Relies on `uluru::LRUCache::new`: the cache starts empty.
#[verifier::external_body]
fn cache_new() -> (r: uluru::LRUCache<Vec<u8>, HISTORY_LEN>)
    ensures
        cached_lines(r) == Seq::<Seq<u8>>::empty(),
{
    uluru::LRUCache::new()
}

/// Relies on `uluru::LRUCache::insert`: the value becomes the front entry,
/// and when the cache is full the back entry is evicted.
#[verifier::external_body]
fn cache_insert(c: &mut uluru::LRUCache<Vec<u8>, HISTORY_LEN>, line: Vec<u8>)
    ensures
        cached_lines(*final(c)) == (if cached_lines(*old(c)).len() < HISTORY_LEN {
            seq![line@] + cached_lines(*old(c))
        } else {
            seq![line@] + cached_lines(*old(c)).drop_last()
        }),
{
    c.insert(line);
}

/// Relies on `uluru::LRUCache::touch`: the first entry equal to `line`, if
/// any, moves to the front, and the result tells whether there was one.
#[verifier::external_body]
fn cache_touch(c: &mut uluru::LRUCache<Vec<u8>, HISTORY_LEN>, line: &Vec<u8>) -> (r: bool)
    ensures
        r == cached_lines(*old(c)).contains(line@),
        !r ==> cached_lines(*final(c)) == cached_lines(*old(c)),
        r ==> exists|i: int|
            0 <= i < cached_lines(*old(c)).len() && cached_lines(*old(c))[i] == line@ && (forall|
                j: int,
            | 0 <= j < i ==> cached_lines(*old(c))[j] != line@) && cached_lines(*final(c)) == seq![
                line@,
            ] + cached_lines(*old(c)).remove(i),
{
    c.touch(|e| same_line(e, line))
}

/// Relies on `uluru::LRUCache::get`: the entry at `index`, counted from the
/// most recently used.
#[verifier::external_body]
fn cache_get(c: &uluru::LRUCache<Vec<u8>, HISTORY_LEN>, index: usize) -> (r: Option<Vec<u8>>)
    ensures
        r is Some <==> index < cached_lines(*c).len(),
        r matches Some(l) ==> l@ == cached_lines(*c)[index as int],
{
    c.get(index).cloned()
}

/// Whether two lines hold the same bytes.
pub fn same_line(a: &Vec<u8>, b: &Vec<u8>) -> (r: bool)
    ensures
        r == (a@ == b@),
{
    if a.len() != b.len() {
        return false;
    }
    let mut i: usize = 0;
    while i < a.len()
        invariant
            a@.len() == b@.len(),
            i <= a@.len(),
            forall|j: int| 0 <= j < i ==> a@[j] == b@[j],
        decreases a@.len() - i,
    {
        if a[i] != b[i] {
            return false;
        }
        i = i + 1;
    }
    assert(a@ =~= b@);
    true
}

/// The entries after pushing `line` onto `s` (most recent first): an entry
/// equal to `line` moves to the front; otherwise `line` is added there,
/// evicting the oldest entry when `cap` entries are already held.
pub open spec fn promote(s: Seq<Seq<u8>>, line: Seq<u8>, cap: nat) -> Seq<Seq<u8>> {
    if s.contains(line) {
        seq![line] + s.remove(s.index_of(line))
    } else if s.len() < cap {
        seq![line] + s
    } else {
        seq![line] + s.drop_last()
    }
}

/// A history of up to [`HISTORY_LEN`] distinct lines of at most `CMD_LEN`
/// bytes, kept in most-recently-used order.
pub struct LRUHistory<const CMD_LEN: usize> {
    cache: uluru::LRUCache<Vec<u8>, HISTORY_LEN>,
    index: usize,
}

impl<const CMD_LEN: usize> LRUHistory<CMD_LEN> {
    /// The entries, most recent first.
    pub closed spec fn entries(&self) -> Seq<Seq<u8>> {
        cached_lines(self.cache)
    }

    /// The navigation index: how many steps back from the live line.
    pub closed spec fn nav(&self) -> nat {
        self.index as nat
    }

    /// The invariant: at most [`HISTORY_LEN`] distinct entries, none longer
    /// than `CMD_LEN`, and the navigation index within them.
    pub open spec fn wf(&self) -> bool {
        &&& self.entries().len() <= HISTORY_LEN
        &&& self.entries().no_duplicates()
        &&& forall|i: int| 0 <= i < self.entries().len() ==> #[trigger] self.entries()[i].len() <= CMD_LEN
        &&& self.nav() <= self.entries().len()
    }

    /// An empty history.
    pub fn new() -> (r: Self)
        ensures
            r.wf(),
            r.entries() == Seq::<Seq<u8>>::empty(),
            r.nav() == 0,
    {
        LRUHistory { cache: cache_new(), index: 0 }
    }

    /// The entry `index` steps back from the most recent one.
    pub fn get(&self, index: usize) -> (r: Option<Vec<u8>>)
        ensures
            r is Some <==> index < self.entries().len(),
            r matches Some(l) ==> l@ == self.entries()[index as int],
    {
        cache_get(&self.cache, index)
    }
}

impl<const CMD_LEN: usize> History<CMD_LEN> for LRUHistory<CMD_LEN> {
    open spec fn inv(&self) -> bool {
        self.wf()
    }

    open spec fn pushed(&self, line: Seq<u8>, next: &Self) -> bool {
        next.entries() == promote(self.entries(), line, HISTORY_LEN as nat) && next.nav() == 0
    }

    open spec fn back_entry(&self) -> Option<Seq<u8>> {
        if self.nav() < self.entries().len() {
            Some(self.entries()[self.nav() as int])
        } else {
            None
        }
    }

    open spec fn stepped_back(&self, next: &Self) -> bool {
        next.entries() == self.entries() && next.nav() == (if self.nav() < self.entries().len() {
            self.nav() + 1
        } else {
            self.nav()
        })
    }

    open spec fn forward_entry(&self) -> Option<Seq<u8>> {
        if self.nav() >= 2 {
            Some(self.entries()[self.nav() - 2])
        } else {
            None
        }
    }

    open spec fn stepped_forward(&self, next: &Self) -> bool {
        next.entries() == self.entries() && next.nav() == (if self.nav() >= 2 {
            (self.nav() - 1) as nat
        } else {
            self.nav()
        })
    }

    fn push(&mut self, line: &[u8]) -> (r: Result<(), CapacityError>) {
        if line.len() > CMD_LEN {
            return Err(CapacityError);
        }
        let ghost s = self.entries();
        let v = copy_bytes(line);
        if cache_touch(&mut self.cache, &v) {
            proof {
                let i = choose|i: int|
                    0 <= i < s.len() && s[i] == line@ && (forall|j: int|
                        0 <= j < i ==> s[j] != line@) && self.entries() == seq![line@] + s.remove(i);
                s.index_of_first_ensures(line@);
                assert(s.index_of(line@) == i);
                assert(self.entries().no_duplicates()) by {
                    assert forall|a: int, b: int|
                        0 <= a < self.entries().len() && 0 <= b < self.entries().len() && a != b
                        implies self.entries()[a] != self.entries()[b] by {
                        if a > 0 && b > 0 {
                            let a1 = if a - 1 < i { a - 1 } else { a };
                            let b1 = if b - 1 < i { b - 1 } else { b };
                            assert(self.entries()[a] == s[a1]);
                            assert(self.entries()[b] == s[b1]);
                        } else if a == 0 {
                            let b1 = if b - 1 < i { b - 1 } else { b };
                            assert(self.entries()[b] == s[b1]);
                        } else {
                            let a1 = if a - 1 < i { a - 1 } else { a };
                            assert(self.entries()[a] == s[a1]);
                        }
                    }
                }
                assert forall|k: int| 0 <= k < self.entries().len() implies #[trigger] self.entries()[k].len()
                    <= CMD_LEN by {
                    if k > 0 {
                        let k1 = if k - 1 < i { k - 1 } else { k };
                        assert(self.entries()[k] == s[k1]);
                    }
                }
            }
        } else {
            cache_insert(&mut self.cache, v);
            proof {
                let t = self.entries();
                let rest = if s.len() < HISTORY_LEN { s } else { s.drop_last() };
                assert(t == seq![line@] + rest);
                assert forall|k: int| 0 <= k < rest.len() implies rest[k] == s[k] by {}
                assert(t.no_duplicates()) by {
                    assert forall|a: int, b: int| 0 <= a < t.len() && 0 <= b < t.len() && a != b implies t[a]
                        != t[b] by {
                        if a > 0 && b > 0 {
                            assert(t[a] == s[a - 1]);
                            assert(t[b] == s[b - 1]);
                        } else if a == 0 {
                            assert(t[b] == s[b - 1]);
                        } else {
                            assert(t[a] == s[a - 1]);
                        }
                    }
                }
                assert forall|k: int| 0 <= k < t.len() implies #[trigger] t[k].len() <= CMD_LEN by {
                    if k > 0 {
                        assert(t[k] == s[k - 1]);
                    }
                }
            }
        }
        self.index = 0;
        Ok(())
    }

    fn go_back(&mut self) -> (r: Option<Vec<u8>>) {
        match cache_get(&self.cache, self.index) {
            Some(l) => {
                self.index = self.index + 1;
                Some(l)
            },
            None => None,
        }
    }

    fn go_forward(&mut self) -> (r: Option<Vec<u8>>) {
        if self.index < 2 {
            return None;
        }
        match cache_get(&self.cache, self.index - 2) {
            Some(l) => {
                self.index = self.index - 1;
                Some(l)
            },
            None => None,
        }
    }
}


/// The entries after pushing each of `lines` in order onto `s`.
pub open spec fn push_lines(s: Seq<Seq<u8>>, lines: Seq<Seq<u8>>) -> Seq<Seq<u8>>
    decreases lines.len(),
{
    if lines.len() == 0 {
        s
    } else {
        push_lines(promote(s, lines[0], HISTORY_LEN as nat), lines.drop_first())
    }
}

/// Pushing distinct lines into an empty history keeps them all, newest
/// first, as long as they fit.
pub proof fn lemma_fill(lines: Seq<Seq<u8>>)
    requires
        lines.no_duplicates(),
        lines.len() <= HISTORY_LEN,
    ensures
        push_lines(Seq::empty(), lines).len() == lines.len(),
        forall|j: int|
            0 <= j < lines.len() ==> #[trigger] push_lines(Seq::empty(), lines)[j] == lines[lines.len()
                - 1 - j],
    decreases lines.len(),
{
    if lines.len() > 0 {
        let init = lines.drop_last();
        assert(init.no_duplicates());
        lemma_fill(init);
        lemma_push_last(Seq::empty(), init, lines.last());
        assert(init.push(lines.last()) =~= lines);
        let before = push_lines(Seq::empty(), init);
        assert(!before.contains(lines.last())) by {
            if before.contains(lines.last()) {
                let j = choose|j: int| 0 <= j < before.len() && before[j] == lines.last();
                assert(lines[lines.len() - 2 - j] == lines[lines.len() - 1]);
            }
        }
    }
}

/// Pushing one more line after `lines` is one more promotion.
pub proof fn lemma_push_last(s: Seq<Seq<u8>>, lines: Seq<Seq<u8>>, line: Seq<u8>)
    ensures
        push_lines(s, lines.push(line)) == promote(push_lines(s, lines), line, HISTORY_LEN as nat),
    decreases lines.len(),
{
    if lines.len() > 0 {
        assert(lines.push(line).drop_first() =~= lines.drop_first().push(line));
        assert(lines.push(line)[0] == lines[0]);
        lemma_push_last(promote(s, lines[0], HISTORY_LEN as nat), lines.drop_first(), line);
    } else {
        assert(lines.push(line).drop_first() =~= Seq::<Seq<u8>>::empty());
        assert(lines.push(line)[0] == line);
        assert(push_lines(promote(s, line, HISTORY_LEN as nat), Seq::<Seq<u8>>::empty()) == promote(
            s,
            line,
            HISTORY_LEN as nat,
        ));
    }
}

/// Pushing `HISTORY_LEN + 1` distinct lines into an empty history evicts
/// the first and keeps the others, newest first.
pub proof fn lemma_oldest_evicted(lines: Seq<Seq<u8>>)
    requires
        lines.no_duplicates(),
        lines.len() == HISTORY_LEN + 1,
    ensures
        !push_lines(Seq::empty(), lines).contains(lines[0]),
        push_lines(Seq::empty(), lines).len() == HISTORY_LEN,
        forall|j: int|
            0 <= j < HISTORY_LEN ==> #[trigger] push_lines(Seq::empty(), lines)[j] == lines[HISTORY_LEN
                - j],
{
    let init = lines.drop_last();
    assert(init.no_duplicates());
    lemma_fill(init);
    lemma_push_last(Seq::empty(), init, lines.last());
    assert(init.push(lines.last()) =~= lines);
    let before = push_lines(Seq::empty(), init);
    assert(!before.contains(lines.last())) by {
        if before.contains(lines.last()) {
            let j = choose|j: int| 0 <= j < before.len() && before[j] == lines.last();
            assert(lines[HISTORY_LEN - 1 - j] == lines[HISTORY_LEN as int]);
        }
    }
    let after = push_lines(Seq::empty(), lines);
    assert(after == seq![lines.last()] + before.drop_last());
    assert(!after.contains(lines[0])) by {
        if after.contains(lines[0]) {
            let j = choose|j: int| 0 <= j < after.len() && after[j] == lines[0];
            if j > 0 {
                assert(after[j] == before[j - 1]);
                assert(before[j - 1] == lines[HISTORY_LEN - j]);
            }
        }
    }
}

/// Stepping back repeatedly from the live line returns the entries from the
/// newest to the oldest, and nothing once they are exhausted.
pub proof fn lemma_walk_back<const CMD_LEN: usize>(hs: Seq<LRUHistory<CMD_LEN>>)
    requires
        hs.len() > 0,
        hs[0].wf(),
        hs[0].nav() == 0,
        forall|i: int| 0 <= i < hs.len() - 1 ==> #[trigger] hs[i].stepped_back(&hs[i + 1]),
    ensures
        forall|i: int|
            0 <= i < hs.len() && i < hs[0].entries().len() ==> #[trigger] hs[i].back_entry() == Some(
                hs[0].entries()[i],
            ),
        forall|i: int|
            0 <= i < hs.len() && i >= hs[0].entries().len() ==> #[trigger] hs[i].back_entry() is None,
{
    let n = hs[0].entries().len() as int;
    assert forall|i: int| 0 <= i < hs.len() implies #[trigger] hs[i].entries() == hs[0].entries()
        && hs[i].nav() == (if i < n { i } else { n }) by {
        lemma_walk_back_at(hs, i);
    }
}

/// The state reached after `i` steps back.
proof fn lemma_walk_back_at<const CMD_LEN: usize>(hs: Seq<LRUHistory<CMD_LEN>>, i: int)
    requires
        0 <= i < hs.len(),
        hs[0].nav() == 0,
        forall|k: int| 0 <= k < hs.len() - 1 ==> #[trigger] hs[k].stepped_back(&hs[k + 1]),
    ensures
        hs[i].entries() == hs[0].entries(),
        hs[i].nav() == (if i < hs[0].entries().len() { i } else { hs[0].entries().len() as int }),
    decreases i,
{
    if i > 0 {
        lemma_walk_back_at(hs, i - 1);
        let k = i - 1;
        assert(hs[k].stepped_back(&hs[k + 1]));
        assert(k + 1 == i);
    }
}

/// A step forward right after a step back from a browsed entry returns the
/// entry that was shown before: the next more recent one.
pub proof fn lemma_forward_after_back<const CMD_LEN: usize>(
    h: LRUHistory<CMD_LEN>,
    h1: LRUHistory<CMD_LEN>,
)
    requires
        h.wf(),
        h.nav() >= 1,
        h.back_entry() is Some,
        h.stepped_back(&h1),
    ensures
        h1.forward_entry() == Some(h.entries()[h.nav() - 1]),
{
}

} // verus!
