//! The play queue: which track plays next, and what shuffle, repeat and
//! "stop after this track" mean for that choice.
//!
//! Pure logic with no audio in it. The only outside call is the shuffle,
//! whose outcome is random: every contract here holds whatever order it
//! picks.

use vstd::prelude::*;

use crate::records::Track;

verus! {

broadcast use vstd::seq_lib::group_to_multiset_ensures;

#[derive(Clone, Copy, Debug, PartialEq, Eq, Structural)]
pub enum Repeat {
    /// Stop when the queue ends.
    Off,
    /// Play the current track again.
    Track,
    /// Start the queue over when it ends.
    Queue,
}

/// What to do once the current track ends.
#[derive(Clone, Debug, PartialEq, Eq)]
pub enum Advance {
    /// Play this track next.
    Play(Box<Track>),
    /// Nothing follows: playback stops.
    Stop,
}

/// `lo, lo + 1, ..., hi - 1`.
pub open spec fn range_seq(lo: nat, hi: nat) -> Seq<usize> {
    Seq::new((hi - lo) as nat, |i: int| (lo + i) as usize)
}

/// `0, 1, ..., n - 1`.
pub open spec fn identity(n: nat) -> Seq<usize> {
    range_seq(0, n)
}

/// `s` lists each of `lo..hi` exactly once, in some order.
pub open spec fn spans(s: Seq<usize>, lo: nat, hi: nat) -> bool {
    &&& s.len() + lo == hi
    &&& forall|i: int| 0 <= i < s.len() ==> lo <= #[trigger] s[i] < hi
    &&& s.no_duplicates()
}

/// `s` lists each of `0..n` exactly once.
pub open spec fn is_permutation(s: Seq<usize>, n: nat) -> bool {
    spans(s, 0, n)
}

/// Every entry of `s` is below `n`.
pub open spec fn all_below(s: Seq<usize>, n: nat) -> bool {
    forall|i: int| 0 <= i < s.len() ==> #[trigger] s[i] < n
}

/// The first position of `x` in `s`, if it occurs.
pub open spec fn first_position(s: Seq<usize>, x: usize) -> Option<usize> {
    if exists|i: int| 0 <= i < s.len() && s[i] == x {
        let i = choose|i: int| 0 <= i < s.len() && s[i] == x && forall|j: int| 0 <= j < i ==> s[j] != x;
        Some(i as usize)
    } else {
        None
    }
}

/// Everything the queue holds, as the contracts speak of it.
pub ghost struct QueueView {
    /// The tracks in the order the user sees them.
    pub tracks: Seq<Track>,
    /// Indices into `tracks`, in playing order.
    pub order: Seq<usize>,
    /// Position in `order`, not in `tracks`.
    pub cursor: Option<usize>,
    pub shuffle: bool,
    pub repeat: Repeat,
    pub stop_after_current: bool,
    /// Tracks to play before the rest of the queue, by index into `tracks`.
    pub queued: Seq<usize>,
    /// The position in `order` to carry on from once `queued` is done.
    pub resume: Option<usize>,
}

impl QueueView {
    pub open spec fn wf(self) -> bool {
        &&& is_permutation(self.order, self.tracks.len())
        &&& !self.shuffle ==> self.order == identity(self.tracks.len())
        &&& self.cursor matches Some(c) ==> c < self.order.len()
        &&& self.resume matches Some(r) ==> r < self.order.len()
        &&& all_below(self.queued, self.tracks.len())
    }

    /// The position of the current track in `tracks`.
    pub open spec fn current_index(self) -> Option<usize> {
        match self.cursor {
            Some(c) => if c < self.order.len() {
                Some(self.order[c as int])
            } else {
                None
            },
            None => None,
        }
    }

    pub open spec fn current(self) -> Option<Track> {
        match self.current_index() {
            Some(i) => if i < self.tracks.len() {
                Some(self.tracks[i as int])
            } else {
                None
            },
            None => None,
        }
    }

    /// What playing the current track means.
    pub open spec fn play_current(self) -> Advance {
        match self.current() {
            Some(track) => Advance::Play(Box::new(track)),
            None => Advance::Stop,
        }
    }

    /// The same queue, with another playing order and position.
    pub open spec fn with_order(self, order: Seq<usize>, cursor: Option<usize>) -> QueueView {
        QueueView { order, cursor, ..self }
    }

    /// Jumping to the track at `index` in `tracks`: the point to resume
    /// from is forgotten, and an index the queue does not hold stops.
    pub open spec fn jump(self, index: usize) -> (QueueView, Advance) {
        let cleared = QueueView { resume: None, ..self };
        match first_position(self.order, index) {
            Some(p) => {
                let moved = QueueView { cursor: Some(p), ..cleared };
                (moved, moved.play_current())
            },
            None => (cleared, Advance::Stop),
        }
    }

    /// Going back one track; at the start of the queue the first track
    /// plays again.
    pub open spec fn back(self) -> (QueueView, Advance) {
        let cleared = QueueView { resume: None, ..self };
        match self.cursor {
            None => (cleared, Advance::Stop),
            Some(c) => if c == 0 {
                (cleared, cleared.play_current())
            } else {
                let moved = QueueView { cursor: Some((c - 1) as usize), ..cleared };
                (moved, moved.play_current())
            },
        }
    }

    /// Where the queue carries on from: the remembered point, else the
    /// current position.
    pub open spec fn carry_on(self) -> Option<usize> {
        match self.resume {
            Some(r) => Some(r),
            None => self.cursor,
        }
    }

    /// Moving on to the next track because the user asked for it or
    /// because the current one ended. Where the queue starts over under
    /// shuffle, the new order is random; `fresh` is the one that came up.
    pub open spec fn step(self, fresh: Seq<usize>) -> (QueueView, Advance) {
        if self.queued.len() > 0 {
            // The queued tracks come first, in the order they were queued,
            // and the queue remembers where it was.
            let popped = QueueView { queued: self.queued.drop_first(), ..self };
            let (jumped, played) = popped.jump(self.queued[0]);
            (QueueView { resume: self.carry_on(), ..jumped }, played)
        } else {
            let cleared = QueueView { resume: None, ..self };
            match self.carry_on() {
                None => (cleared, Advance::Stop),
                Some(c) => if c + 1 < self.order.len() {
                    let moved = QueueView { cursor: Some((c + 1) as usize), ..cleared };
                    (moved, moved.play_current())
                } else if self.repeat == Repeat::Queue && self.order.len() > 0 {
                    let order = if self.shuffle {
                        fresh
                    } else {
                        self.order
                    };
                    let moved = QueueView { order, cursor: Some(0), ..cleared };
                    (moved, moved.play_current())
                } else {
                    (cleared, Advance::Stop)
                },
            }
        }
    }

    /// What the queue does once the current track has ended.
    pub open spec fn advance(self, fresh: Seq<usize>) -> (QueueView, Advance) {
        if self.stop_after_current {
            (QueueView { stop_after_current: false, ..self }, Advance::Stop)
        } else if self.repeat == Repeat::Track {
            (self, self.play_current())
        } else {
            self.step(fresh)
        }
    }
}

/// A queue with no tracks, with shuffle, repeat and "stop after this
/// track" off.
pub open spec fn empty_queue() -> QueueView {
    QueueView {
        tracks: Seq::empty(),
        order: Seq::empty(),
        cursor: None,
        shuffle: false,
        repeat: Repeat::Off,
        stop_after_current: false,
        queued: Seq::empty(),
        resume: None,
    }
}

/// A shuffled copy of `items`, in place.
///
/// Calls `rand::seq::SliceRandom::shuffle` with the thread's generator.
/// Its source swaps elements of the slice and nothing else, so the slice
/// afterwards holds the same elements, each as often as before; which
/// order comes out is chance, and nothing is said of it.
#[verifier::external_body]
fn shuffle_in_place(items: &mut Vec<usize>)
    ensures
        final(items)@.len() == old(items)@.len(),
        final(items)@.to_multiset() == old(items)@.to_multiset(),
{
    rand::seq::SliceRandom::shuffle(items.as_mut_slice(), &mut rand::rng());
}

/// A sequence with the same elements as one that spans a range spans it
/// too.
proof fn lemma_same_elements_spans(s: Seq<usize>, t: Seq<usize>, lo: nat, hi: nat)
    requires
        spans(t, lo, hi),
        s.to_multiset() == t.to_multiset(),
    ensures
        spans(s, lo, hi),
{
    assert(s.len() == t.len()) by {
        assert(s.len() == s.to_multiset().len());
        assert(t.len() == t.to_multiset().len());
    }
    assert forall|i: int| 0 <= i < s.len() implies lo <= #[trigger] s[i] < hi by {
        assert(s.contains(s[i]));
        assert(s.to_multiset().count(s[i]) > 0);
        assert(t.contains(s[i]));
        let j = choose|j: int| 0 <= j < t.len() && t[j] == s[i];
        assert(lo <= t[j] < hi);
    }
    t.lemma_multiset_has_no_duplicates();
    s.lemma_multiset_has_no_duplicates_conv();
}

proof fn lemma_range_spans(lo: nat, hi: nat)
    requires
        lo <= hi,
        hi <= usize::MAX + 1,
    ensures
        spans(range_seq(lo, hi), lo, hi),
{
    let s = range_seq(lo, hi);
    assert forall|i: int| 0 <= i < s.len() implies #[trigger] s[i] == lo + i by {}
}

proof fn lemma_identity_permutation(n: nat)
    requires
        n <= usize::MAX,
    ensures
        is_permutation(identity(n), n),
{
    lemma_range_spans(0, n);
}

/// Two sequences spanning adjacent ranges, one after the other, span both.
proof fn lemma_concat_spans(a: Seq<usize>, b: Seq<usize>, lo: nat, mid: nat, hi: nat)
    requires
        spans(a, lo, mid),
        spans(b, mid, hi),
    ensures
        spans(a + b, lo, hi),
{
    let s = a + b;
    assert forall|i: int| 0 <= i < s.len() implies lo <= #[trigger] s[i] < hi by {
        if i < a.len() {
            assert(s[i] == a[i]);
        } else {
            assert(s[i] == b[i - a.len()]);
        }
    }
    assert forall|i: int, j: int| 0 <= i < s.len() && 0 <= j < s.len() && i != j implies s[i]
        != s[j] by {
        if i < a.len() {
            assert(s[i] == a[i]);
        } else {
            assert(s[i] == b[i - a.len()]);
        }
        if j < a.len() {
            assert(s[j] == a[j]);
        } else {
            assert(s[j] == b[j - a.len()]);
        }
    }
}

/// Exchanging two entries keeps a permutation one.
proof fn lemma_swap_permutation(s: Seq<usize>, p: int, n: nat)
    requires
        is_permutation(s, n),
        0 <= p < s.len(),
    ensures
        is_permutation(s.update(0, s[p]).update(p, s[0]), n),
        s.update(0, s[p]).update(p, s[0])[0] == s[p],
{
    let t = s.update(0, s[p]).update(p, s[0]);
    // Where each entry of `t` came from in `s`.
    let from = |i: int| if i == 0 { p } else if i == p { 0 } else { i };
    assert forall|i: int| 0 <= i < t.len() implies #[trigger] t[i] == s[from(i)] by {}
    assert forall|i: int| 0 <= i < t.len() implies #[trigger] t[i] < n by {
        assert(t[i] == s[from(i)]);
    }
    assert forall|i: int, j: int| 0 <= i < t.len() && 0 <= j < t.len() && i != j implies t[i]
        != t[j] by {
        assert(t[i] == s[from(i)]);
        assert(t[j] == s[from(j)]);
    }
}

/// In a sequence without duplicates the first position of an element is
/// its only one.
proof fn lemma_first_position_unique(s: Seq<usize>, x: usize, i: int)
    requires
        s.no_duplicates(),
        0 <= i < s.len(),
        s[i] == x,
    ensures
        first_position(s, x) == Some(i as usize),
{
    assert(forall|j: int| 0 <= j < i ==> s[j] != x);
}

/// A permutation of `0..n` holds every one of them.
proof fn lemma_permutation_holds(s: Seq<usize>, n: nat, x: usize)
    requires
        is_permutation(s, n),
        x < n,
        n <= usize::MAX,
    ensures
        exists|i: int| 0 <= i < s.len() && s[i] == x,
{
    if !(exists|i: int| 0 <= i < s.len() && s[i] == x) {
        // Then `s` is `n` distinct values taken from the `n - 1` values of
        // `0..n` other than `x`: too many.
        let others = Set::new(|v: usize| v < n && v != x);
        let seen = s.to_set();
        assert(seen.subset_of(others));
        lemma_set_below_len(n, x);
        vstd::set_lib::lemma_len_subset(seen, others);
        s.unique_seq_to_set();
        assert(false);
    }
}

proof fn lemma_set_below_len(n: nat, x: usize)
    requires
        x < n,
        n <= usize::MAX,
    ensures
        Set::new(|v: usize| v < n && v != x).finite(),
        Set::new(|v: usize| v < n && v != x).len() == n - 1,
    decreases n,
{
    let s = Set::new(|v: usize| v < n && v != x);
    let below = Set::new(|v: usize| v < n);
    lemma_set_usize_below(n);
    assert(s == below.remove(x));
}

proof fn lemma_set_usize_below(n: nat)
    requires
        n <= usize::MAX + 1,
    ensures
        Set::new(|v: usize| v < n).finite(),
        Set::new(|v: usize| v < n).len() == n,
    decreases n,
{
    let s = Set::new(|v: usize| v < n);
    if n == 0 {
        assert(s == Set::<usize>::empty());
    } else {
        let m = (n - 1) as nat;
        lemma_set_usize_below(m);
        let t = Set::new(|v: usize| v < m);
        assert(s == t.insert(m as usize));
    }
}

/// Where the current track sits once the playing order is rebuilt around
/// `keep`, an index into `tracks`, for a queue of `n` tracks.
pub open spec fn rebuilt_cursor(keep: Option<usize>, n: nat, shuffle: bool) -> Option<usize> {
    match keep {
        None => None,
        Some(k) => if n == 0 {
            None
        } else if k < n {
            if shuffle {
                Some(0)
            } else {
                Some(k)
            }
        } else {
            Some(0)
        },
    }
}

/// Finds the first position of `x` in `items`.
fn position_of(items: &Vec<usize>, x: usize) -> (found: Option<usize>)
    ensures
        found == first_position(items@, x),
{
    let mut i: usize = 0;
    while i < items.len()
        invariant
            i <= items.len(),
            forall|j: int| 0 <= j < i ==> items@[j] != x,
        decreases items.len() - i,
    {
        if items[i] == x {
            assert(exists|k: int| 0 <= k < items@.len() && items@[k] == x);
            let ghost k = choose|k: int|
                0 <= k < items@.len() && items@[k] == x && forall|j: int| 0 <= j < k ==> items@[j]
                    != x;
            assert(k == i as int) by {
                if k < i {
                } else if k > i {
                }
            }
            return Some(i);
        }
        i = i + 1;
    }
    None
}

pub struct Queue {
    tracks: Vec<Track>,
    order: Vec<usize>,
    cursor: Option<usize>,
    shuffle: bool,
    repeat: Repeat,
    stop_after_current: bool,
    queued: Vec<usize>,
    resume: Option<usize>,
}

impl View for Queue {
    type V = QueueView;

    closed spec fn view(&self) -> QueueView {
        QueueView {
            tracks: self.tracks@,
            order: self.order@,
            cursor: self.cursor,
            shuffle: self.shuffle,
            repeat: self.repeat,
            stop_after_current: self.stop_after_current,
            queued: self.queued@,
            resume: self.resume,
        }
    }
}

impl Queue {
    /// An empty queue, with shuffle, repeat and "stop after this track" off.
    pub fn new() -> (queue: Queue)
        ensures
            queue@ == empty_queue(),
            queue@.wf(),
    {
        let queue = Queue {
            tracks: Vec::new(),
            order: Vec::new(),
            cursor: None,
            shuffle: false,
            repeat: Repeat::Off,
            stop_after_current: false,
            queued: Vec::new(),
            resume: None,
        };
        proof {
            lemma_identity_permutation(0);
            assert(queue@.order == identity(0));
        }
        queue
    }

    /// Rebuilds the playing order, keeping `keep` (an index into `tracks`)
    /// as the current track when it is given.
    fn rebuild_order(&mut self, keep: Option<usize>)
        ensures
            final(self)@ == old(self)@.with_order(final(self)@.order, final(self)@.cursor),
            is_permutation(final(self)@.order, old(self)@.tracks.len()),
            !old(self)@.shuffle ==> final(self)@.order == identity(old(self)@.tracks.len()),
            final(self)@.cursor == rebuilt_cursor(keep, old(self)@.tracks.len(), old(self)@.shuffle),
            keep matches Some(k) ==> (k < old(self)@.tracks.len() ==> final(self)@.current_index()
                == Some(k)),
    {
        let n = self.tracks.len();
        let mut order: Vec<usize> = Vec::new();
        let mut i: usize = 0;
        while i < n
            invariant
                i <= n,
                order@ == identity(i as nat),
            decreases n - i,
        {
            order.push(i);
            i = i + 1;
            assert(order@ =~= identity(i as nat));
        }
        proof {
            lemma_identity_permutation(n as nat);
        }
        if self.shuffle {
            let ghost before = order@;
            shuffle_in_place(&mut order);
            proof {
                lemma_same_elements_spans(order@, before, 0, n as nat);
            }
            if let Some(k) = keep {
                if let Some(p) = position_of(&order, k) {
                    // The track that is playing goes first, so turning
                    // shuffle on does not interrupt it.
                    let ghost s = order@;
                    let first = order[0];
                    order[0] = k;
                    order[p] = first;
                    proof {
                        lemma_swap_permutation(s, p as int, n as nat);
                        assert(order@ =~= s.update(0, s[p as int]).update(p as int, s[0]));
                    }
                }
            }
        }
        self.order = order;
        self.cursor = match keep {
            Some(k) => position_of(&self.order, k),
            None => None,
        };
        proof {
            if let Some(k) = keep {
                if k < n {
                    lemma_permutation_holds(self.order@, n as nat, k);
                    let j = choose|j: int| 0 <= j < self.order@.len() && self.order@[j] == k;
                    lemma_first_position_unique(self.order@, k, j);
                    if self.shuffle {
                        lemma_first_position_unique(self.order@, k, 0);
                    } else {
                        assert(self.order@[k as int] == k);
                        lemma_first_position_unique(self.order@, k, k as int);
                    }
                } else {
                    assert forall|j: int| 0 <= j < self.order@.len() implies self.order@[j] != k by {}
                }
            }
        }
        if self.cursor.is_none() && self.order.len() > 0 && keep.is_some() {
            self.cursor = Some(0);
        }
    }

    /// Replaces the queue and starts at `start`, which is an index into
    /// `tracks`. Returns the track to play, if any.
    pub fn replace(&mut self, tracks: Vec<Track>, start: usize) -> (playing: Option<&Track>)
        requires
            old(self)@.wf(),
        ensures
            final(self)@.wf(),
            final(self)@ == (QueueView {
                tracks: tracks@,
                order: final(self)@.order,
                cursor: rebuilt_cursor(Some(start), tracks@.len(), old(self)@.shuffle),
                queued: Seq::empty(),
                resume: None,
                stop_after_current: false,
                ..old(self)@
            }),
            start < tracks@.len() ==> final(self)@.current_index() == Some(start),
            match playing {
                Some(track) => final(self)@.current() == Some(*track),
                None => final(self)@.current() is None,
            },
    {
        self.tracks = tracks;
        self.queued.clear();
        self.resume = None;
        self.stop_after_current = false;
        self.rebuild_order(Some(start));
        self.current()
    }

    /// Adds tracks at the end of the queue, keeping what is playing and
    /// the order of what is already lined up.
    pub fn append(&mut self, tracks: Vec<Track>)
        requires
            old(self)@.wf(),
            old(self)@.tracks.len() + tracks@.len() <= usize::MAX,
        ensures
            final(self)@.wf(),
            final(self)@ == (QueueView {
                tracks: old(self)@.tracks + tracks@,
                order: final(self)@.order,
                ..old(self)@
            }),
            final(self)@.order.subrange(0, old(self)@.order.len() as int) == old(self)@.order,
            spans(
                final(self)@.order.subrange(
                    old(self)@.order.len() as int,
                    final(self)@.order.len() as int,
                ),
                old(self)@.tracks.len(),
                final(self)@.tracks.len(),
            ),
    {
        let first_new = self.tracks.len();
        let mut tracks = tracks;
        self.tracks.append(&mut tracks);
        let end = self.tracks.len();
        let mut added: Vec<usize> = Vec::new();
        let mut i: usize = first_new;
        while i < end
            invariant
                first_new <= i <= end,
                added@ == range_seq(first_new as nat, i as nat),
            decreases end - i,
        {
            added.push(i);
            i = i + 1;
            assert(added@ =~= range_seq(first_new as nat, i as nat));
        }
        proof {
            lemma_range_spans(first_new as nat, end as nat);
        }
        if self.shuffle {
            // Shuffle only the new part, so what is already lined up keeps
            // its order.
            let ghost before = added@;
            shuffle_in_place(&mut added);
            proof {
                lemma_same_elements_spans(added@, before, first_new as nat, end as nat);
            }
        }
        let ghost old_order = self.order@;
        let ghost snapshot = self@;
        proof {
            if !self.shuffle {
                assert(old_order == identity(first_new as nat));
            }
        }
        let mut j: usize = 0;
        while j < added.len()
            invariant
                j <= added.len(),
                self.order@ == old_order + added@.subrange(0, j as int),
                self@ == (QueueView { order: self@.order, ..snapshot }),
                old_order.len() == first_new,
            decreases added.len() - j,
        {
            self.order.push(added[j]);
            j = j + 1;
            assert(self.order@ =~= old_order + added@.subrange(0, j as int));
        }
        proof {
            assert(added@.subrange(0, added@.len() as int) =~= added@);
            lemma_concat_spans(old_order, added@, 0, first_new as nat, end as nat);
            assert(self.order@.subrange(0, first_new as int) =~= old_order);
            assert(self.order@.subrange(first_new as int, self.order@.len() as int) =~= added@);
            if !self.shuffle {
                assert(self.order@ =~= identity(end as nat));
            }
        }
    }

    /// Plays `index` next, before the rest of the queue continues. An
    /// index the queue does not hold is ignored.
    pub fn play_next(&mut self, index: usize)
        requires
            old(self)@.wf(),
        ensures
            final(self)@.wf(),
            final(self)@ == (if index < old(self)@.tracks.len() {
                QueueView { queued: old(self)@.queued.push(index), ..old(self)@ }
            } else {
                old(self)@
            }),
    {
        if index < self.tracks.len() {
            self.queued.push(index);
        }
    }

    pub fn current(&self) -> (track: Option<&Track>)
        ensures
            match track {
                Some(track) => self@.current() == Some(*track),
                None => self@.current() is None,
            },
    {
        match self.cursor {
            Some(cursor) => if cursor < self.order.len() {
                let index = self.order[cursor];
                if index < self.tracks.len() {
                    Some(&self.tracks[index])
                } else {
                    None
                }
            } else {
                None
            },
            None => None,
        }
    }

    /// The position of the current track in the queue as the user sees it.
    pub fn current_index(&self) -> (index: Option<usize>)
        ensures
            index == self@.current_index(),
    {
        match self.cursor {
            Some(cursor) => if cursor < self.order.len() {
                Some(self.order[cursor])
            } else {
                None
            },
            None => None,
        }
    }

    pub fn len(&self) -> (n: usize)
        ensures
            n == self@.tracks.len(),
    {
        self.tracks.len()
    }

    pub fn is_empty(&self) -> (empty: bool)
        ensures
            empty == (self@.tracks.len() == 0),
    {
        self.tracks.len() == 0
    }

    pub fn shuffle(&self) -> (on: bool)
        ensures
            on == self@.shuffle,
    {
        self.shuffle
    }

    pub fn repeat(&self) -> (mode: Repeat)
        ensures
            mode == self@.repeat,
    {
        self.repeat
    }

    pub fn stop_after_current(&self) -> (on: bool)
        ensures
            on == self@.stop_after_current,
    {
        self.stop_after_current
    }

    pub fn set_repeat(&mut self, repeat: Repeat)
        requires
            old(self)@.wf(),
        ensures
            final(self)@.wf(),
            final(self)@ == (QueueView { repeat, ..old(self)@ }),
    {
        self.repeat = repeat;
    }

    pub fn set_stop_after_current(&mut self, stop: bool)
        requires
            old(self)@.wf(),
        ensures
            final(self)@.wf(),
            final(self)@ == (QueueView { stop_after_current: stop, ..old(self)@ }),
    {
        self.stop_after_current = stop;
    }

    /// Turns shuffle on or off, keeping the current track playing: the rest
    /// of the queue is reordered around it.
    pub fn set_shuffle(&mut self, shuffle: bool)
        requires
            old(self)@.wf(),
        ensures
            final(self)@.wf(),
            shuffle == old(self)@.shuffle ==> final(self)@ == old(self)@,
            shuffle != old(self)@.shuffle ==> final(self)@ == (QueueView {
                shuffle,
                resume: None,
                order: final(self)@.order,
                cursor: rebuilt_cursor(
                    old(self)@.current_index(),
                    old(self)@.tracks.len(),
                    shuffle,
                ),
                ..old(self)@
            }),
            final(self)@.current_index() == old(self)@.current_index(),
            final(self)@.current() == old(self)@.current(),
    {
        if shuffle == self.shuffle {
            return;
        }
        self.shuffle = shuffle;
        // The positions in `order` all change, so a remembered one would
        // point at an unrelated track.
        self.resume = None;
        let current = self.current_index();
        self.rebuild_order(current);
    }

    fn play_current(&self) -> (advance: Advance)
        ensures
            advance == self@.play_current(),
    {
        match self.current() {
            Some(track) => Advance::Play(Box::new(track.duplicate())),
            None => Advance::Stop,
        }
    }

    /// Jumps to a track by its index in the queue as the user sees it.
    /// The queue carries on from there, so anything queued to play next
    /// keeps its place but the point to resume from is forgotten.
    pub fn jump_to(&mut self, index: usize) -> (advance: Advance)
        requires
            old(self)@.wf(),
        ensures
            final(self)@.wf(),
            (final(self)@, advance) == old(self)@.jump(index),
            index < old(self)@.tracks.len() ==> final(self)@.current_index() == Some(index),
            index >= old(self)@.tracks.len() ==> advance == Advance::Stop,
    {
        self.resume = None;
        let n = self.tracks.len();
        proof {
            if index < n {
                lemma_permutation_holds(self@.order, self@.tracks.len(), index);
                let j = choose|j: int| 0 <= j < self@.order.len() && self@.order[j] == index;
                lemma_first_position_unique(self@.order, index, j);
            } else {
                assert forall|j: int| 0 <= j < self@.order.len() implies self@.order[j]
                    != index by {}
            }
        }
        match position_of(&self.order, index) {
            Some(cursor) => {
                self.cursor = Some(cursor);
                self.play_current()
            },
            None => Advance::Stop,
        }
    }

    /// Moves to the previous track. At the start of the queue it stays on
    /// the first track, which is what a player does when you press previous
    /// twice at the beginning.
    pub fn previous(&mut self) -> (advance: Advance)
        requires
            old(self)@.wf(),
        ensures
            final(self)@.wf(),
            (final(self)@, advance) == old(self)@.back(),
    {
        self.resume = None;
        let cursor = match self.cursor {
            Some(cursor) => cursor,
            None => return Advance::Stop,
        };
        if cursor == 0 {
            return self.play_current();
        }
        self.cursor = Some(cursor - 1);
        self.play_current()
    }

    fn step_forward(&mut self) -> (advance: Advance)
        requires
            old(self)@.wf(),
        ensures
            final(self)@.wf(),
            (final(self)@, advance) == old(self)@.step(final(self)@.order),
    {
        if self.queued.len() > 0 {
            let ghost before = self@;
            let index = self.queued.remove(0);
            proof {
                assert(self@.queued =~= before.queued.drop_first());
                assert(self@ == (QueueView { queued: before.queued.drop_first(), ..before }));
            }
            // Remember where the queue was, so it carries on from there
            // once the queued tracks have played.
            let resume = match self.resume {
                Some(resume) => Some(resume),
                None => self.cursor,
            };
            let advance = self.jump_to(index);
            self.resume = resume;
            return advance;
        }
        // The queued tracks are done: pick the queue back up where it was.
        let from = match self.resume {
            Some(resume) => Some(resume),
            None => self.cursor,
        };
        self.resume = None;
        let cursor = match from {
            Some(cursor) => cursor,
            None => return Advance::Stop,
        };
        let length = self.order.len();
        assert(cursor < length);
        let next = cursor + 1;
        if next < self.order.len() {
            self.cursor = Some(next);
            return self.play_current();
        }
        if self.repeat == Repeat::Queue && self.order.len() > 0 {
            if self.shuffle {
                // A new pass gets a new order, otherwise "shuffle" would
                // repeat the same sequence for ever.
                self.rebuild_order(None);
            }
            self.cursor = Some(0);
            return self.play_current();
        }
        Advance::Stop
    }

    /// Moves to what follows the current track once it has ended.
    pub fn advance(&mut self) -> (advance: Advance)
        requires
            old(self)@.wf(),
        ensures
            final(self)@.wf(),
            (final(self)@, advance) == old(self)@.advance(final(self)@.order),
    {
        if self.stop_after_current {
            self.stop_after_current = false;
            return Advance::Stop;
        }
        if self.repeat == Repeat::Track {
            return self.play_current();
        }
        self.step_forward()
    }

    /// Moves to the next track because the user asked for it, which ignores
    /// "repeat track" and "stop after this track".
    pub fn skip_forward(&mut self) -> (advance: Advance)
        requires
            old(self)@.wf(),
        ensures
            final(self)@.wf(),
            (final(self)@, advance) == old(self)@.step(final(self)@.order),
    {
        self.step_forward()
    }
}

/// Each pass through the queue plays every track exactly once: the playing
/// order holds each track's index at exactly one position.
pub proof fn law_every_track_once_per_pass(q: QueueView, index: usize)
    requires
        q.wf(),
        q.tracks.len() <= usize::MAX,
        index < q.tracks.len(),
    ensures
        exists|p: int| 0 <= p < q.order.len() && q.order[p] == index,
        forall|p: int, r: int|
            0 <= p < q.order.len() && 0 <= r < q.order.len() && q.order[p] == index && q.order[r]
                == index ==> p == r,
{
    lemma_permutation_holds(q.order, q.tracks.len(), index);
}

/// A track queued with "play next" plays when the current one ends, and
/// then the queue carries on right after where it was.
pub proof fn law_queued_track_then_carry_on(
    q: QueueView,
    index: usize,
    first_fresh: Seq<usize>,
    second_fresh: Seq<usize>,
)
    requires
        q.wf(),
        q.tracks.len() <= usize::MAX,
        q.queued == seq![index],
        q.resume is None,
        q.cursor matches Some(c) && c + 1 < q.order.len(),
    ensures
        ({
            let (after_first, first) = q.step(first_fresh);
            let (after_second, second) = after_first.step(second_fresh);
            &&& first == Advance::Play(Box::new(q.tracks[index as int]))
            &&& second == Advance::Play(
                Box::new(q.tracks[q.order[q.cursor.unwrap() + 1] as int]),
            )
            &&& after_second.cursor == Some((q.cursor.unwrap() + 1) as usize)
            &&& after_second.resume is None
        }),
{
    assert(q.queued[0] == index);
    lemma_permutation_holds(q.order, q.tracks.len(), index);
    let j = choose|j: int| 0 <= j < q.order.len() && q.order[j] == index;
    lemma_first_position_unique(q.order, index, j);
    let (after_first, first) = q.step(first_fresh);
    assert(after_first.queued =~= Seq::<usize>::empty());
}

/// Queued tracks play in the order they were queued, and the point the
/// queue resumes from is kept until all of them have played.
pub proof fn law_queued_tracks_first_in_first_out(q: QueueView, fresh: Seq<usize>)
    requires
        q.wf(),
        q.tracks.len() <= usize::MAX,
        q.queued.len() > 0,
        q.carry_on() is Some,
    ensures
        ({
            let (after, played) = q.step(fresh);
            &&& played == Advance::Play(Box::new(q.tracks[q.queued[0] as int]))
            &&& after.queued == q.queued.drop_first()
            &&& after.carry_on() == q.carry_on()
            &&& after.current_index() == Some(q.queued[0])
        }),
{
    let index = q.queued[0];
    lemma_permutation_holds(q.order, q.tracks.len(), index);
    let j = choose|j: int| 0 <= j < q.order.len() && q.order[j] == index;
    lemma_first_position_unique(q.order, index, j);
}

/// "Stop after this track" wins over "repeat track", and clears itself
/// once it has applied.
pub proof fn law_stop_after_current_wins(q: QueueView, fresh: Seq<usize>)
    requires
        q.stop_after_current,
    ensures
        q.advance(fresh) == (QueueView { stop_after_current: false, ..q }, Advance::Stop),
{
}

/// "Repeat track" plays the same track again when it ends, and changes
/// nothing else.
pub proof fn law_repeat_track_plays_it_again(q: QueueView, fresh: Seq<usize>)
    requires
        !q.stop_after_current,
        q.repeat == Repeat::Track,
    ensures
        q.advance(fresh) == (q, q.play_current()),
{
}

/// With "repeat queue", the end of the queue starts it over from the first
/// position of a playing order that again holds every track.
pub proof fn law_repeat_queue_starts_over(q: QueueView, fresh: Seq<usize>)
    requires
        q.wf(),
        q.tracks.len() <= usize::MAX,
        q.queued.len() == 0,
        q.carry_on() == Some((q.order.len() - 1) as usize),
        q.order.len() > 0,
        q.repeat == Repeat::Queue,
        q.shuffle ==> is_permutation(fresh, q.tracks.len()),
    ensures
        ({
            let (after, played) = q.step(fresh);
            &&& after.cursor == Some(0usize)
            &&& is_permutation(after.order, after.tracks.len())
            &&& played == after.play_current()
            &&& played != Advance::Stop
        }),
{
    let c = (q.order.len() - 1) as usize;
    assert(!(c + 1 < q.order.len()));
    let order = if q.shuffle {
        fresh
    } else {
        q.order
    };
    let after = QueueView { order, cursor: Some(0), resume: None, ..q };
    assert(q.step(fresh) == (after, after.play_current()));
    assert(after.order[0] < after.tracks.len());
}

/// At the start of the queue, "previous" plays the first track again.
pub proof fn law_previous_at_the_start_replays(q: QueueView)
    requires
        q.wf(),
        q.cursor == Some(0usize),
        q.order.len() > 0,
    ensures
        q.back().1 == q.play_current(),
        q.back().1 != Advance::Stop,
        q.back().0.cursor == Some(0usize),
{
    assert(q.order[0] < q.tracks.len());
}

} // verus!
