//! Request scheduling: which piece to ask of which peer.
//!
//! Before the first piece is held any piece will do; afterwards the pieces
//! that the fewest peers hold come first; for the last few pieces every
//! peer that holds one is asked.

use vstd::prelude::*;
use crate::digest::random_below;
use crate::grid::bitfield::{count_set, lemma_count_set_bound};

verus! {

/// Peers are named by text.
pub type PeerId = String;

/// Pieces left at which the end game starts, unless set otherwise.
pub const DEFAULT_ENDGAME_THRESHOLD: usize = 10;

/// A piece is picked among this many of the rarest candidates.
pub const RAREST_POOL: usize = 10;

/// How the next piece is chosen.
#[derive(Clone, Copy, Debug, PartialEq, Eq, Structural)]
pub enum ScheduleMode {
    /// No piece is held yet: any piece will do.
    RandomFirst,
    /// The pieces that the fewest peers hold come first.
    RareFirst,
    /// Few pieces are left: every peer that holds one is asked.
    Endgame,
}

/// One request to make: a piece, the peer to ask, and how urgent it is.
#[derive(Clone, Debug)]
pub struct PieceRequest {
    pub piece_index: usize,
    pub target_peer: PeerId,
    pub priority: u32,
}

/// A summary of the scheduler's state.
#[derive(Clone, Copy, Debug)]
pub struct SchedulerStats {
    pub total_pieces: usize,
    pub completed: usize,
    pub pending: usize,
    pub connected_peers: usize,
    pub mode: ScheduleMode,
    /// The piece not held that the fewest peers hold, with their number.
    pub rarest_piece: Option<(usize, usize)>,
}

/// What one peer is known to hold.
#[derive(Debug)]
struct PeerPieces {
    id: String,
    pieces: Vec<bool>,
}

/// The scheduler.
#[derive(Debug)]
pub struct Scheduler {
    total_pieces: usize,
    piece_frequency: Vec<usize>,
    my_pieces: Vec<bool>,
    pending_pieces: Vec<bool>,
    peers: Vec<PeerPieces>,
    mode: ScheduleMode,
    endgame_threshold: usize,
    completed: usize,
}

/// The scheduler's state as the contracts speak of it.
pub struct SchedulerView {
    pub total_pieces: nat,
    /// For each piece, the number of peers known to hold it.
    pub frequency: Seq<usize>,
    /// For each piece, whether it is held here.
    pub mine: Seq<bool>,
    /// For each piece, whether a request for it is under way.
    pub pending: Seq<bool>,
    /// The known peers, each with what it holds, in the order they came.
    pub peers: Seq<(Seq<char>, Seq<bool>)>,
    pub mode: ScheduleMode,
    pub endgame_threshold: usize,
}

/// The number of peers that hold `piece`.
pub open spec fn holders(peers: Seq<(Seq<char>, Seq<bool>)>, piece: int) -> nat
    decreases peers.len(),
{
    if peers.len() == 0 {
        0
    } else {
        holders(peers.drop_last(), piece) + if peers.last().1[piece] { 1nat } else { 0nat }
    }
}

/// The position of the peer `id`, or -1.
pub open spec fn peer_position(peers: Seq<(Seq<char>, Seq<bool>)>, id: Seq<char>) -> int
    decreases peers.len(),
{
    if peers.len() == 0 {
        -1
    } else {
        let p = peer_position(peers.drop_last(), id);
        if p >= 0 {
            p
        } else if peers.last().0 == id {
            peers.len() - 1
        } else {
            -1
        }
    }
}

/// What a list of piece indices marks among `total` pieces; indices past
/// the end count for nothing.
pub open spec fn marked(indices: Seq<usize>, total: nat) -> Seq<bool> {
    Seq::new(total, |i: int| indices.contains(i as usize))
}

/// The mode that fits the progress: random while nothing is held, end
/// game once no more than `threshold` pieces are left, rarest first
/// between the two.
pub open spec fn mode_for(completed: nat, total: nat, threshold: usize) -> ScheduleMode {
    if completed == 0 {
        ScheduleMode::RandomFirst
    } else if total - completed <= threshold {
        ScheduleMode::Endgame
    } else {
        ScheduleMode::RareFirst
    }
}

/// The urgency of a piece that `frequency` peers hold: 100 for a piece
/// with a single holder, and 100 less the frequency, counted up to 99.
pub open spec fn priority_of(frequency: usize) -> u32 {
    if frequency == 1 {
        100
    } else if frequency >= 99 {
        1
    } else {
        (100 - frequency) as u32
    }
}

/// No two peers have the same name.
pub open spec fn distinct_peers(peers: Seq<(Seq<char>, Seq<bool>)>) -> bool {
    forall|i: int, j: int| 0 <= i < j < peers.len() ==> (#[trigger] peers[i]).0 != (#[trigger] peers[j]).0
}

impl SchedulerView {
    /// The frequency of every piece is the number of known peers that hold
    /// it, every map covers all pieces, and no peer is known twice.
    pub open spec fn consistent(self) -> bool {
        &&& self.frequency.len() == self.total_pieces
        &&& self.mine.len() == self.total_pieces
        &&& self.pending.len() == self.total_pieces
        &&& distinct_peers(self.peers)
        &&& forall|k: int| 0 <= k < self.peers.len() ==> (#[trigger] self.peers[k]).1.len() == self.total_pieces
        &&& forall|i: int|
            0 <= i < self.total_pieces ==> #[trigger] self.frequency[i] == holders(self.peers, i)
    }

    /// The pieces held so far.
    pub open spec fn completed(self) -> nat {
        count_set(self.mine)
    }
}

pub proof fn lemma_peer_position(peers: Seq<(Seq<char>, Seq<bool>)>, id: Seq<char>)
    ensures
        -1 <= peer_position(peers, id) < peers.len(),
        peer_position(peers, id) >= 0 ==> peers[peer_position(peers, id)].0 == id,
        forall|i: int|
            0 <= i < peers.len() && (#[trigger] peers[i]).0 == id ==> 0 <= peer_position(peers, id)
                <= i,
    decreases peers.len(),
{
    if peers.len() > 0 {
        lemma_peer_position(peers.drop_last(), id);
        assert forall|i: int| 0 <= i < peers.len() && (#[trigger] peers[i]).0 == id implies 0
            <= peer_position(peers, id) <= i by {
            if i < peers.len() - 1 {
                assert(peers.drop_last()[i] == peers[i]);
            }
        }
    }
}

/// No more peers hold a piece than there are peers.
pub proof fn lemma_holders_bound(peers: Seq<(Seq<char>, Seq<bool>)>, piece: int)
    ensures
        holders(peers, piece) <= peers.len(),
    decreases peers.len(),
{
    if peers.len() > 0 {
        lemma_holders_bound(peers.drop_last(), piece);
    }
}

/// Replacing what one peer holds changes the count of a piece by that
/// peer's part in it.
pub proof fn lemma_holders_update(
    peers: Seq<(Seq<char>, Seq<bool>)>,
    at: int,
    entry: (Seq<char>, Seq<bool>),
    piece: int,
)
    requires
        0 <= at < peers.len(),
    ensures
        holders(peers.update(at, entry), piece) + (if peers[at].1[piece] { 1nat } else { 0nat })
            == holders(peers, piece) + (if entry.1[piece] { 1nat } else { 0nat }),
    decreases peers.len(),
{
    let after = peers.update(at, entry);
    if at == peers.len() - 1 {
        assert(after.drop_last() =~= peers.drop_last());
    } else {
        assert(after.drop_last() =~= peers.drop_last().update(at, entry));
        lemma_holders_update(peers.drop_last(), at, entry, piece);
    }
}

/// Forgetting a peer lowers the count of each piece that it held by one.
pub proof fn lemma_holders_remove(peers: Seq<(Seq<char>, Seq<bool>)>, at: int, piece: int)
    requires
        0 <= at < peers.len(),
    ensures
        holders(peers.remove(at), piece) + (if peers[at].1[piece] { 1nat } else { 0nat })
            == holders(peers, piece),
    decreases peers.len(),
{
    let after = peers.remove(at);
    if at == peers.len() - 1 {
        assert(after =~= peers.drop_last());
    } else {
        assert(after.drop_last() =~= peers.drop_last().remove(at));
        assert(after.last() == peers.last());
        lemma_holders_remove(peers.drop_last(), at, piece);
    }
}

/// Marking one more piece raises the count by one, unmarking lowers it.
pub proof fn lemma_count_set_update(s: Seq<bool>, at: int, value: bool)
    requires
        0 <= at < s.len(),
    ensures
        count_set(s.update(at, value)) + (if s[at] { 1nat } else { 0nat }) == count_set(s) + (
        if value { 1nat } else { 0nat }),
    decreases s.len(),
{
    let after = s.update(at, value);
    if at == s.len() - 1 {
        assert(after.drop_last() =~= s.drop_last());
    } else {
        assert(after.drop_last() =~= s.drop_last().update(at, value));
        lemma_count_set_update(s.drop_last(), at, value);
    }
}

/// Brings the frequencies from one list of peers to another that differs
/// in what a single peer holds.
#[verifier::loop_isolation(false)]
fn shift_frequencies(
    frequency: &mut Vec<usize>,
    old_bits: &Vec<bool>,
    new_bits: &Vec<bool>,
    Ghost(old_peers): Ghost<Seq<(Seq<char>, Seq<bool>)>>,
    Ghost(new_peers): Ghost<Seq<(Seq<char>, Seq<bool>)>>,
)
    requires
        old(frequency)@.len() == old_bits@.len(),
        old_bits@.len() == new_bits@.len(),
        new_peers.len() <= usize::MAX,
        forall|i: int|
            0 <= i < old(frequency)@.len() ==> #[trigger] old(frequency)@[i] == holders(
                old_peers,
                i,
            ),
        forall|i: int|
            0 <= i < old_bits@.len() ==> #[trigger] holders(new_peers, i) + (if old_bits@[i] {
                1nat
            } else {
                0nat
            }) == holders(old_peers, i) + (if new_bits@[i] { 1nat } else { 0nat }),
    ensures
        final(frequency)@.len() == old(frequency)@.len(),
        forall|i: int|
            0 <= i < final(frequency)@.len() ==> #[trigger] final(frequency)@[i] == holders(
                new_peers,
                i,
            ),
{
    let n = frequency.len();
    let mut i: usize = 0;
    while i < n
        invariant
            i <= n,
            frequency@.len() == n,
            forall|k: int| 0 <= k < i ==> #[trigger] frequency@[k] == holders(new_peers, k),
            forall|k: int| i <= k < n ==> #[trigger] frequency@[k] == holders(old_peers, k),
        decreases n - i,
    {
        proof {
            lemma_holders_bound(new_peers, i as int);
            assert(holders(new_peers, i as int) + (if old_bits@[i as int] { 1nat } else { 0nat })
                == holders(old_peers, i as int) + (if new_bits@[i as int] { 1nat } else { 0nat }));
        }
        let held_before = old_bits[i];
        let held_after = new_bits[i];
        let count = frequency[i];
        if held_before && !held_after {
            frequency.set(i, count - 1);
        } else if !held_before && held_after {
            frequency.set(i, count + 1);
        }
        i += 1;
    }
}

/// `total` entries, all `false`.
fn blank(total: usize) -> (bits: Vec<bool>)
    ensures
        bits@ == Seq::new(total as nat, |i: int| false),
{
    let mut bits: Vec<bool> = Vec::new();
    let mut i: usize = 0;
    while i < total
        invariant
            i <= total,
            bits@ == Seq::new(i as nat, |k: int| false),
        decreases total - i,
    {
        bits.push(false);
        i += 1;
        proof {
            assert(bits@ =~= Seq::new(i as nat, |k: int| false));
        }
    }
    bits
}

/// The pieces that a peer holds and that are neither held here nor asked
/// for already.
pub open spec fn wanted_from(view: SchedulerView, peer: int) -> Seq<bool> {
    Seq::new(
        view.total_pieces,
        |i: int| view.peers[peer].1[i] && !view.mine[i] && !view.pending[i],
    )
}

/// The pieces that a peer holds and that are not held here, asked for or not.
pub open spec fn endgame_wanted_from(view: SchedulerView, peer: int) -> Seq<bool> {
    Seq::new(view.total_pieces, |i: int| view.peers[peer].1[i] && !view.mine[i])
}

/// Whether piece `a` comes before piece `b` when the rarest comes first:
/// fewer holders, or as many and the lower index.
pub open spec fn comes_before(frequency: Seq<usize>, a: int, b: int) -> bool {
    frequency[a] < frequency[b] || (frequency[a] == frequency[b] && a < b)
}

/// The candidates that come before `piece`.
pub open spec fn rarer_candidates(candidates: Seq<bool>, frequency: Seq<usize>, piece: int) -> Seq<
    bool,
> {
    Seq::new(candidates.len(), |i: int| candidates[i] && comes_before(frequency, i, piece))
}

/// Whether `piece` is a candidate and one of the [`RAREST_POOL`] rarest:
/// fewer than that many candidates come before it.
pub open spec fn among_rarest(candidates: Seq<bool>, frequency: Seq<usize>, piece: int) -> bool {
    &&& 0 <= piece < candidates.len()
    &&& candidates[piece]
    &&& count_set(rarer_candidates(candidates, frequency, piece)) < RAREST_POOL
}

/// Whether a request fits the state: the peer is known and holds the
/// piece, the piece is neither held here nor asked for, and the priority
/// is that of the piece's frequency.
pub open spec fn valid_request(view: SchedulerView, request: PieceRequest) -> bool {
    let peer = peer_position(view.peers, request.target_peer@);
    &&& peer >= 0
    &&& request.piece_index < view.total_pieces
    &&& wanted_from(view, peer)[request.piece_index as int]
    &&& request.priority == priority_of(view.frequency[request.piece_index as int])
}

/// Whether some request is for `piece`.
pub open spec fn requests_piece(requests: Seq<PieceRequest>, piece: int) -> bool {
    exists|k: int| 0 <= k < requests.len() && (#[trigger] requests[k]).piece_index == piece
}

/// Whether some request goes to the peer `name`.
pub open spec fn requests_peer(requests: Seq<PieceRequest>, name: Seq<char>) -> bool {
    exists|k: int| 0 <= k < requests.len() && (#[trigger] requests[k]).target_peer@ == name
}

/// The pieces that are wanted from the peer of `request` and that no other
/// request of the round asks for.
pub open spec fn free_for(view: SchedulerView, requests: Seq<PieceRequest>, request: PieceRequest) -> Seq<
    bool,
> {
    Seq::new(
        view.total_pieces,
        |i: int|
            wanted_from(view, peer_position(view.peers, request.target_peer@))[i] && (i
                == request.piece_index || !requests_piece(requests, i)),
    )
}

/// A mask that marks no more than another counts no more.
pub proof fn lemma_count_set_subset(a: Seq<bool>, b: Seq<bool>)
    requires
        a.len() == b.len(),
        forall|i: int| 0 <= i < a.len() && a[i] ==> b[i],
    ensures
        count_set(a) <= count_set(b),
    decreases a.len(),
{
    if a.len() > 0 {
        lemma_count_set_subset(a.drop_last(), b.drop_last());
    }
}

/// What a round of requests is: at most `max_requests`, each fitting the
/// state, no piece twice and no peer twice, the most urgent first, each
/// piece among the rarest of those that its peer offers and no other
/// request takes; and a peer is left without a request only if the round
/// is full or every piece wanted from it is asked of another.
pub open spec fn is_request_round(
    view: SchedulerView,
    max_requests: nat,
    requests: Seq<PieceRequest>,
) -> bool {
    &&& requests.len() <= max_requests
    &&& requests.len() <= view.peers.len()
    &&& forall|k: int| 0 <= k < requests.len() ==> valid_request(view, #[trigger] requests[k])
    &&& forall|j: int, k: int|
        0 <= j < k < requests.len() ==> (#[trigger] requests[j]).piece_index != (
        #[trigger] requests[k]).piece_index
    &&& forall|j: int, k: int|
        0 <= j < k < requests.len() ==> (#[trigger] requests[j]).target_peer@ != (
        #[trigger] requests[k]).target_peer@
    &&& forall|j: int, k: int|
        0 <= j < k < requests.len() ==> (#[trigger] requests[j]).priority >= (
        #[trigger] requests[k]).priority
    &&& forall|k: int|
        0 <= k < requests.len() ==> among_rarest(
            free_for(view, requests, #[trigger] requests[k]),
            view.frequency,
            requests[k].piece_index as int,
        )
    &&& requests.len() == max_requests || forall|q: int|
        0 <= q < view.peers.len() ==> requests_peer(requests, (#[trigger] view.peers[q]).0)
            || forall|i: int|
            0 <= i < view.total_pieces && #[trigger] wanted_from(view, q)[i] ==> requests_piece(
                requests,
                i,
            )
}

/// The names of the peers that hold `piece`, in the order the peers came.
pub open spec fn holder_names(peers: Seq<(Seq<char>, Seq<bool>)>, piece: int) -> Seq<Seq<char>>
    decreases peers.len(),
{
    if peers.len() == 0 {
        Seq::empty()
    } else if peers.last().1[piece] {
        holder_names(peers.drop_last(), piece).push(peers.last().0)
    } else {
        holder_names(peers.drop_last(), piece)
    }
}

/// A list of names as mathematical values.
pub open spec fn names_of(names: Seq<String>) -> Seq<Seq<char>> {
    Seq::new(names.len(), |k: int| names[k]@)
}

/// Whether `rarest` names the piece not held that the fewest peers hold,
/// the first of them where several tie, with that number of peers; or
/// nothing where every piece is held.
pub open spec fn is_rarest_missing(view: SchedulerView, rarest: Option<(usize, usize)>) -> bool {
    match rarest {
        None => forall|i: int| 0 <= i < view.total_pieces ==> view.mine[i],
        Some((piece, frequency)) => {
            &&& piece < view.total_pieces
            &&& !view.mine[piece as int]
            &&& frequency == view.frequency[piece as int]
            &&& forall|i: int|
                0 <= i < view.total_pieces && !view.mine[i] ==> frequency <= view.frequency[i]
            &&& forall|i: int| 0 <= i < piece && !view.mine[i] ==> frequency < view.frequency[i]
        },
    }
}

/// The peers after `id` was taken with what `pieces` marks.
pub open spec fn peers_with(
    peers: Seq<(Seq<char>, Seq<bool>)>,
    id: Seq<char>,
    pieces: Seq<bool>,
) -> Seq<(Seq<char>, Seq<bool>)> {
    if peer_position(peers, id) >= 0 {
        peers.update(peer_position(peers, id), (id, pieces))
    } else {
        peers.push((id, pieces))
    }
}

/// What a peer is known to hold after it said that it holds `piece`.
pub open spec fn pieces_with(
    peers: Seq<(Seq<char>, Seq<bool>)>,
    id: Seq<char>,
    piece: int,
    total: nat,
) -> Seq<bool> {
    if peer_position(peers, id) >= 0 {
        peers[peer_position(peers, id)].1.update(piece, true)
    } else {
        Seq::new(total, |i: int| i == piece)
    }
}

/// The peers after `id` was forgotten.
pub open spec fn peers_without(peers: Seq<(Seq<char>, Seq<bool>)>, id: Seq<char>) -> Seq<
    (Seq<char>, Seq<bool>),
> {
    if peer_position(peers, id) >= 0 {
        peers.remove(peer_position(peers, id))
    } else {
        peers
    }
}

/// `post` is `pre` with the peers changed to `peers`, the frequencies
/// brought along and the mode set to fit the progress.
pub open spec fn repeered(pre: SchedulerView, peers: Seq<(Seq<char>, Seq<bool>)>, post: SchedulerView) -> bool {
    &&& post.consistent()
    &&& post == (SchedulerView {
        peers,
        frequency: post.frequency,
        mode: mode_for(pre.completed(), pre.total_pieces, pre.endgame_threshold),
        ..pre
    })
}

/// The state after piece `index` was completed.
pub open spec fn completed_piece(pre: SchedulerView, index: usize) -> SchedulerView {
    if index < pre.total_pieces {
        SchedulerView {
            mine: pre.mine.update(index as int, true),
            pending: pre.pending.update(index as int, false),
            mode: mode_for(
                count_set(pre.mine.update(index as int, true)),
                pre.total_pieces,
                pre.endgame_threshold,
            ),
            ..pre
        }
    } else {
        SchedulerView {
            mode: mode_for(pre.completed(), pre.total_pieces, pre.endgame_threshold),
            ..pre
        }
    }
}

/// The state after the request for piece `index` was noted or dropped.
pub open spec fn repended(pre: SchedulerView, index: usize, pending: bool) -> SchedulerView {
    if index < pre.total_pieces {
        SchedulerView { pending: pre.pending.update(index as int, pending), ..pre }
    } else {
        pre
    }
}

impl View for Scheduler {
    type V = SchedulerView;

    closed spec fn view(&self) -> SchedulerView {
        SchedulerView {
            total_pieces: self.total_pieces as nat,
            frequency: self.piece_frequency@,
            mine: self.my_pieces@,
            pending: self.pending_pieces@,
            peers: Seq::new(
                self.peers@.len(),
                |k: int| (self.peers@[k].id@, self.peers@[k].pieces@),
            ),
            mode: self.mode,
            endgame_threshold: self.endgame_threshold,
        }
    }
}

impl Scheduler {
    /// The state is consistent and the count of held pieces is up to date.
    pub closed spec fn wf(&self) -> bool {
        &&& self@.consistent()
        &&& self.completed == count_set(self.my_pieces@)
    }

    /// A well-formed scheduler is consistent.
    pub proof fn lemma_wf(&self)
        ensures
            self.wf() ==> self@.consistent(),
    {
    }

    /// A scheduler for `total_pieces` pieces that knows no peer and holds
    /// nothing.
    pub fn new(total_pieces: usize) -> (scheduler: Self)
        ensures
            scheduler.wf(),
            scheduler@ == (SchedulerView {
                total_pieces: total_pieces as nat,
                frequency: Seq::new(total_pieces as nat, |i: int| 0usize),
                mine: Seq::new(total_pieces as nat, |i: int| false),
                pending: Seq::new(total_pieces as nat, |i: int| false),
                peers: Seq::empty(),
                mode: ScheduleMode::RandomFirst,
                endgame_threshold: DEFAULT_ENDGAME_THRESHOLD,
            }),
    {
        let mut piece_frequency: Vec<usize> = Vec::new();
        let mut my_pieces: Vec<bool> = Vec::new();
        let mut pending_pieces: Vec<bool> = Vec::new();
        let mut i: usize = 0;
        while i < total_pieces
            invariant
                i <= total_pieces,
                piece_frequency@ == Seq::new(i as nat, |k: int| 0usize),
                my_pieces@ == Seq::new(i as nat, |k: int| false),
                pending_pieces@ == Seq::new(i as nat, |k: int| false),
            decreases total_pieces - i,
        {
            piece_frequency.push(0);
            my_pieces.push(false);
            pending_pieces.push(false);
            i += 1;
            proof {
                assert(piece_frequency@ =~= Seq::new(i as nat, |k: int| 0usize));
                assert(my_pieces@ =~= Seq::new(i as nat, |k: int| false));
                assert(pending_pieces@ =~= Seq::new(i as nat, |k: int| false));
            }
        }
        let scheduler = Scheduler {
            total_pieces,
            piece_frequency,
            my_pieces,
            pending_pieces,
            peers: Vec::new(),
            mode: ScheduleMode::RandomFirst,
            endgame_threshold: DEFAULT_ENDGAME_THRESHOLD,
            completed: 0,
        };
        proof {
            assert(scheduler@.peers =~= Seq::empty());
            crate::grid::bitfield::lemma_count_set_extremes(scheduler.my_pieces@);
        }
        scheduler
    }

    /// The number of pieces.
    pub fn total_pieces(&self) -> (n: usize)
        ensures
            n == self@.total_pieces,
    {
        self.total_pieces
    }

    /// The number of known peers that hold `piece`; zero past the end.
    pub fn piece_frequency(&self, piece: usize) -> (n: usize)
        requires
            self.wf(),
        ensures
            n == if piece < self@.total_pieces {
                holders(self@.peers, piece as int)
            } else {
                0
            },
    {
        if piece < self.piece_frequency.len() {
            self.piece_frequency[piece]
        } else {
            0
        }
    }

    /// The current mode.
    pub fn mode(&self) -> (mode: ScheduleMode)
        ensures
            mode == self@.mode,
    {
        self.mode
    }

    /// Sets the mode by hand; the next change of progress or of peers
    /// sets it again.
    pub fn set_mode(&mut self, mode: ScheduleMode)
        requires
            old(self).wf(),
        ensures
            final(self).wf(),
            final(self)@ == (SchedulerView { mode, ..old(self)@ }),
    {
        self.mode = mode;
    }

    /// Sets the number of pieces left at which the end game starts.
    pub fn set_endgame_threshold(&mut self, threshold: usize)
        requires
            old(self).wf(),
        ensures
            final(self).wf(),
            final(self)@ == (SchedulerView { endgame_threshold: threshold, ..old(self)@ }),
    {
        self.endgame_threshold = threshold;
    }

    /// Sets the mode that fits the progress.
    pub fn update_mode(&mut self)
        requires
            old(self).wf(),
        ensures
            final(self).wf(),
            final(self)@ == (SchedulerView {
                mode: mode_for(
                    old(self)@.completed(),
                    old(self)@.total_pieces,
                    old(self)@.endgame_threshold,
                ),
                ..old(self)@
            }),
    {
        proof {
            lemma_count_set_bound(self.my_pieces@);
        }
        let remaining = self.total_pieces - self.completed;
        self.mode = if self.completed == 0 {
            ScheduleMode::RandomFirst
        } else if remaining <= self.endgame_threshold {
            ScheduleMode::Endgame
        } else {
            ScheduleMode::RareFirst
        };
    }

    #[verifier::loop_isolation(false)]
    fn find_peer(&self, id: &String) -> (at: usize)
        ensures
            at <= self@.peers.len(),
            at < self@.peers.len() ==> peer_position(self@.peers, id@) == at,
            at == self@.peers.len() ==> peer_position(self@.peers, id@) == -1,
    {
        proof {
            lemma_peer_position(self@.peers, id@);
        }
        let mut i: usize = 0;
        while i < self.peers.len()
            invariant
                i <= self.peers@.len(),
                forall|k: int| 0 <= k < i ==> (#[trigger] self@.peers[k]).0 != id@,
            decreases self.peers@.len() - i,
        {
            if self.peers[i].id == *id {
                assert(self@.peers[i as int].0 == id@);
                return i;
            }
            i += 1;
        }
        i
    }

    /// Puts `entry` in the place of the peer at `at`, or behind the last
    /// peer where `at` is past the end, and brings the frequencies along.
    fn put_peer(&mut self, at: usize, entry: PeerPieces)
        requires
            old(self).wf(),
            at <= old(self)@.peers.len(),
            entry.pieces@.len() == old(self)@.total_pieces,
            at < old(self)@.peers.len() ==> old(self)@.peers[at as int].0 == entry.id@,
            at == old(self)@.peers.len() ==> peer_position(old(self)@.peers, entry.id@) == -1,
        ensures
            final(self).wf(),
            final(self)@.peers == if at < old(self)@.peers.len() {
                old(self)@.peers.update(at as int, (entry.id@, entry.pieces@))
            } else {
                old(self)@.peers.push((entry.id@, entry.pieces@))
            },
            final(self)@.total_pieces == old(self)@.total_pieces,
            final(self)@.mine == old(self)@.mine,
            final(self)@.pending == old(self)@.pending,
            final(self)@.mode == old(self)@.mode,
            final(self)@.endgame_threshold == old(self)@.endgame_threshold,
    {
        let ghost old_peers = self@.peers;
        let ghost pair = (entry.id@, entry.pieces@);
        proof {
            lemma_peer_position(old_peers, entry.id@);
        }
        if at < self.peers.len() {
            let before = self.peers.remove(at);
            self.peers.insert(at, entry);
            let ghost new_peers = old_peers.update(at as int, pair);
            proof {
                assert(self@.peers =~= new_peers);
                assert(before.pieces@ == old_peers[at as int].1);
                assert forall|i: int| 0 <= i < self.total_pieces implies #[trigger] holders(
                    new_peers,
                    i,
                ) + (if before.pieces@[i] { 1nat } else { 0nat }) == holders(old_peers, i) + (
                if self.peers@[at as int].pieces@[i] { 1nat } else { 0nat }) by {
                    lemma_holders_update(old_peers, at as int, pair, i);
                }
            }
            shift_frequencies(
                &mut self.piece_frequency,
                &before.pieces,
                &self.peers[at].pieces,
                Ghost(old_peers),
                Ghost(new_peers),
            );
            proof {
                assert forall|i: int, j: int| 0 <= i < j < new_peers.len() implies (
                #[trigger] new_peers[i]).0 != (#[trigger] new_peers[j]).0 by {
                    assert(old_peers[i].0 != old_peers[j].0);
                }
            }
        } else {
            let zeros = blank(self.total_pieces);
            self.peers.push(entry);
            let ghost new_peers = old_peers.push(pair);
            proof {
                assert(self@.peers =~= new_peers);
                assert(new_peers.drop_last() =~= old_peers);
            }
            let last = self.peers.len() - 1;
            shift_frequencies(
                &mut self.piece_frequency,
                &zeros,
                &self.peers[last].pieces,
                Ghost(old_peers),
                Ghost(new_peers),
            );
            proof {
                assert forall|i: int, j: int| 0 <= i < j < new_peers.len() implies (
                #[trigger] new_peers[i]).0 != (#[trigger] new_peers[j]).0 by {
                    if j < old_peers.len() {
                        assert(old_peers[i].0 != old_peers[j].0);
                    } else {
                        assert(old_peers[i].0 != pair.0);
                    }
                }
            }
        }
    }

    /// Takes what the peer `peer_id` holds as a whole, in place of what was
    /// known of it. Indices past the end count for nothing. The mode
    /// follows the progress.
    #[verifier::loop_isolation(false)]
    pub fn set_peer_bitfield(&mut self, peer_id: &str, piece_indices: Vec<usize>)
        requires
            old(self).wf(),
        ensures
            final(self).wf(),
            final(self)@ == (SchedulerView {
                peers: if peer_position(old(self)@.peers, peer_id@) >= 0 {
                    old(self)@.peers.update(
                        peer_position(old(self)@.peers, peer_id@),
                        (peer_id@, marked(piece_indices@, old(self)@.total_pieces)),
                    )
                } else {
                    old(self)@.peers.push(
                        (peer_id@, marked(piece_indices@, old(self)@.total_pieces)),
                    )
                },
                frequency: final(self)@.frequency,
                mode: mode_for(
                    old(self)@.completed(),
                    old(self)@.total_pieces,
                    old(self)@.endgame_threshold,
                ),
                ..old(self)@
            }),
    {
        let id = peer_id.to_owned();
        let mut pieces = blank(self.total_pieces);
        let mut k: usize = 0;
        proof {
            assert(pieces@ =~= marked(piece_indices@.take(0), self.total_pieces as nat));
        }
        while k < piece_indices.len()
            invariant
                k <= piece_indices@.len(),
                pieces@ == marked(piece_indices@.take(k as int), self.total_pieces as nat),
            decreases piece_indices@.len() - k,
        {
            let index = piece_indices[k];
            if index < self.total_pieces {
                pieces.set(index, true);
            }
            proof {
                let head = piece_indices@.take(k as int);
                let more = piece_indices@.take(k + 1);
                assert(more =~= head.push(index));
                assert forall|i: int| 0 <= i < self.total_pieces implies pieces@[i]
                    == more.contains(i as usize) by {
                    if more.contains(i as usize) {
                        let w = choose|w: int| 0 <= w < more.len() && more[w] == i as usize;
                        if w < head.len() {
                            assert(head[w] == i as usize);
                        }
                    }
                    if head.contains(i as usize) {
                        let w = choose|w: int| 0 <= w < head.len() && head[w] == i as usize;
                        assert(more[w] == i as usize);
                    }
                    if i == index {
                        assert(more[k as int] == index);
                    }
                }
                assert(pieces@ =~= marked(more, self.total_pieces as nat));
            }
            k += 1;
        }
        proof {
            assert(piece_indices@.take(k as int) =~= piece_indices@);
        }
        let at = self.find_peer(&id);
        proof {
            lemma_peer_position(self@.peers, id@);
        }
        self.put_peer(at, PeerPieces { id, pieces });
        self.update_mode();
    }

    /// Notes that the peer `peer_id` holds piece `piece_index` now; a peer
    /// not known yet becomes known. An index past the end changes nothing.
    /// The mode follows the progress.
    pub fn peer_has_piece(&mut self, peer_id: &str, piece_index: usize)
        requires
            old(self).wf(),
        ensures
            final(self).wf(),
            piece_index >= old(self)@.total_pieces ==> final(self)@ == old(self)@,
            piece_index < old(self)@.total_pieces ==> final(self)@ == (SchedulerView {
                peers: if peer_position(old(self)@.peers, peer_id@) >= 0 {
                    old(self)@.peers.update(
                        peer_position(old(self)@.peers, peer_id@),
                        (
                            peer_id@,
                            old(self)@.peers[peer_position(old(self)@.peers, peer_id@)].1.update(
                                piece_index as int,
                                true,
                            ),
                        ),
                    )
                } else {
                    old(self)@.peers.push(
                        (
                            peer_id@,
                            Seq::new(old(self)@.total_pieces, |i: int| i == piece_index),
                        ),
                    )
                },
                frequency: final(self)@.frequency,
                mode: mode_for(
                    old(self)@.completed(),
                    old(self)@.total_pieces,
                    old(self)@.endgame_threshold,
                ),
                ..old(self)@
            }),
    {
        if piece_index >= self.total_pieces {
            return ;
        }
        let id = peer_id.to_owned();
        let at = self.find_peer(&id);
        proof {
            lemma_peer_position(self@.peers, id@);
        }
        let mut pieces = if at < self.peers.len() {
            self.peers[at].pieces.clone()
        } else {
            blank(self.total_pieces)
        };
        pieces.set(piece_index, true);
        proof {
            if at == self.peers@.len() {
                assert(pieces@ =~= Seq::new(self.total_pieces as nat, |i: int| i == piece_index));
            } else {
                assert(self@.peers[at as int].1 == self.peers@[at as int].pieces@);
                assert(pieces@ =~= self@.peers[at as int].1.update(piece_index as int, true));
            }
        }
        self.put_peer(at, PeerPieces { id, pieces });
        self.update_mode();
    }

    /// Forgets the peer `peer_id`; an unknown peer changes nothing. The
    /// mode follows the progress.
    pub fn remove_peer(&mut self, peer_id: &str)
        requires
            old(self).wf(),
        ensures
            final(self).wf(),
            final(self)@ == (SchedulerView {
                peers: if peer_position(old(self)@.peers, peer_id@) >= 0 {
                    old(self)@.peers.remove(peer_position(old(self)@.peers, peer_id@))
                } else {
                    old(self)@.peers
                },
                frequency: final(self)@.frequency,
                mode: mode_for(
                    old(self)@.completed(),
                    old(self)@.total_pieces,
                    old(self)@.endgame_threshold,
                ),
                ..old(self)@
            }),
    {
        let id = peer_id.to_owned();
        let at = self.find_peer(&id);
        let ghost old_peers = self@.peers;
        if at < self.peers.len() {
            let gone = self.peers.remove(at);
            let zeros = blank(self.total_pieces);
            let ghost new_peers = old_peers.remove(at as int);
            proof {
                assert(self@.peers =~= new_peers);
                assert(gone.pieces@ == old_peers[at as int].1);
                assert forall|i: int| 0 <= i < self.total_pieces implies #[trigger] holders(
                    new_peers,
                    i,
                ) + (if gone.pieces@[i] { 1nat } else { 0nat }) == holders(old_peers, i) + (
                if zeros@[i] { 1nat } else { 0nat }) by {
                    lemma_holders_remove(old_peers, at as int, i);
                }
            }
            shift_frequencies(
                &mut self.piece_frequency,
                &gone.pieces,
                &zeros,
                Ghost(old_peers),
                Ghost(new_peers),
            );
            proof {
                assert forall|i: int, j: int| 0 <= i < j < new_peers.len() implies (
                #[trigger] new_peers[i]).0 != (#[trigger] new_peers[j]).0 by {
                    let a = if i < at { i } else { i + 1 };
                    let b = if j < at { j } else { j + 1 };
                    assert(old_peers[a].0 != old_peers[b].0);
                }
                assert forall|k: int| 0 <= k < new_peers.len() implies (#[trigger] new_peers[k]).1.len()
                    == self.total_pieces by {
                    let a = if k < at { k } else { k + 1 };
                    assert(old_peers[a].1.len() == self.total_pieces);
                }
            }
        } else {
            proof {
                assert(self@.peers =~= old_peers);
            }
        }
        self.update_mode();
    }

    /// One of the [`RAREST_POOL`] rarest candidates, drawn at random, or
    /// nothing where there is no candidate.
    #[verifier::loop_isolation(false)]
    pub fn select_rarest(&self, candidates: &Vec<bool>) -> (choice: Option<usize>)
        requires
            self.wf(),
            candidates@.len() == self@.total_pieces,
        ensures
            choice.is_none() <==> (forall|i: int| 0 <= i < candidates@.len() ==> !candidates@[i]),
            choice.is_some() ==> among_rarest(
                candidates@,
                self@.frequency,
                choice.unwrap() as int,
            ),
    {
        let total = self.total_pieces;
        let ghost frequency = self.piece_frequency@;
        let mut count: usize = 0;
        let mut i: usize = 0;
        while i < total
            invariant
                i <= total,
                count == count_set(candidates@.take(i as int)),
                count <= i,
            decreases total - i,
        {
            proof {
                assert(candidates@.take(i + 1).drop_last() =~= candidates@.take(i as int));
            }
            if candidates[i] {
                count += 1;
            }
            i += 1;
        }
        proof {
            assert(candidates@.take(total as int) =~= candidates@);
            crate::grid::bitfield::lemma_count_set_extremes(candidates@);
        }
        if count == 0 {
            return None;
        }
        let pool = if count < RAREST_POOL { count } else { RAREST_POOL };
        let rank = random_below(pool);
        let mut picked: usize = total;
        let mut taken: usize = 0;
        while taken <= rank
            invariant
                taken <= rank + 1,
                rank < RAREST_POOL,
                taken == 0 ==> picked == total,
                taken > 0 ==> picked < total && candidates@[picked as int] && count_set(
                    rarer_candidates(candidates@, frequency, picked as int),
                ) == taken - 1,
            decreases rank + 1 - taken,
        {
            let mut best: usize = total;
            let mut j: usize = 0;
            while j < total
                invariant
                    j <= total,
                    best <= total,
                    best < total ==> best < j && candidates@[best as int] && (taken > 0
                        ==> comes_before(frequency, picked as int, best as int)),
                    forall|c: int|
                        0 <= c < j && #[trigger] candidates@[c] && (taken > 0 ==> comes_before(
                            frequency,
                            picked as int,
                            c,
                        )) ==> best < total && (c == best || comes_before(frequency, best as int, c)),
                decreases total - j,
            {
                if candidates[j] {
                    let after_picked = taken == 0 || self.piece_frequency[picked]
                        < self.piece_frequency[j] || (self.piece_frequency[picked]
                        == self.piece_frequency[j] && picked < j);
                    if after_picked {
                        let better = best == total || self.piece_frequency[j]
                            < self.piece_frequency[best] || (self.piece_frequency[j]
                            == self.piece_frequency[best] && j < best);
                        if better {
                            best = j;
                        }
                    }
                }
                j += 1;
            }
            if best == total {
                proof {
                    if taken == 0 {
                        let w = choose|w: int| 0 <= w < candidates@.len() && candidates@[w];
                        assert(candidates@[w]);
                    }
                }
                return Some(picked);
            }
            proof {
                let next = rarer_candidates(candidates@, frequency, best as int);
                if taken > 0 {
                    let prior = rarer_candidates(candidates@, frequency, picked as int);
                    assert(!prior[picked as int]);
                    assert(next =~= prior.update(picked as int, true)) by {
                        assert forall|c: int| 0 <= c < next.len() implies next[c] == prior.update(
                            picked as int,
                            true,
                        )[c] by {
                            if candidates@[c] && c != picked {
                                if comes_before(frequency, picked as int, c) {
                                    assert(c == best || comes_before(frequency, best as int, c));
                                }
                            }
                        }
                    }
                    lemma_count_set_update(prior, picked as int, true);
                } else {
                    assert forall|c: int| 0 <= c < next.len() implies !next[c] by {
                        if candidates@[c] {
                            assert(c == best || comes_before(frequency, best as int, c));
                        }
                    }
                    crate::grid::bitfield::lemma_count_set_extremes(next);
                }
            }
            picked = best;
            taken += 1;
        }
        Some(picked)
    }

    /// The pieces that the peer at `at` holds and that are not held here,
    /// with those asked for already left out unless `with_pending`.
    #[verifier::loop_isolation(false)]
    fn candidates_of(&self, at: usize, with_pending: bool) -> (candidates: Vec<bool>)
        requires
            self.wf(),
            at < self@.peers.len(),
        ensures
            candidates@ == if with_pending {
                endgame_wanted_from(self@, at as int)
            } else {
                wanted_from(self@, at as int)
            },
    {
        let mut candidates: Vec<bool> = Vec::new();
        let ghost goal = if with_pending {
            endgame_wanted_from(self@, at as int)
        } else {
            wanted_from(self@, at as int)
        };
        let mut i: usize = 0;
        proof {
            assert(self@.peers[at as int].1 == self.peers@[at as int].pieces@);
        }
        while i < self.total_pieces
            invariant
                i <= self.total_pieces,
                candidates@ == goal.take(i as int),
            decreases self.total_pieces - i,
        {
            let wanted = self.peers[at].pieces[i] && !self.my_pieces[i] && (with_pending
                || !self.pending_pieces[i]);
            candidates.push(wanted);
            proof {
                assert(candidates@ =~= goal.take(i + 1));
            }
            i += 1;
        }
        proof {
            assert(goal.take(i as int) =~= goal);
        }
        candidates
    }

    /// The piece to ask of the peer `peer_id` next, or nothing where the
    /// peer is unknown or holds nothing that is wanted and not asked for.
    /// Before the first piece is held any wanted piece may come; afterwards
    /// one of the rarest does, and in the end game one that may be asked
    /// for already.
    #[verifier::loop_isolation(false)]
    pub fn next_piece_for_peer(&self, peer_id: &str) -> (choice: Option<usize>)
        requires
            self.wf(),
        ensures
            choice.is_none() <==> (peer_position(self@.peers, peer_id@) < 0 || forall|i: int|
                0 <= i < self@.total_pieces ==> !wanted_from(
                    self@,
                    peer_position(self@.peers, peer_id@),
                )[i]),
            choice.is_some() ==> match self@.mode {
                ScheduleMode::RandomFirst => choice.unwrap() < self@.total_pieces && wanted_from(
                    self@,
                    peer_position(self@.peers, peer_id@),
                )[choice.unwrap() as int],
                ScheduleMode::RareFirst => among_rarest(
                    wanted_from(self@, peer_position(self@.peers, peer_id@)),
                    self@.frequency,
                    choice.unwrap() as int,
                ),
                ScheduleMode::Endgame => among_rarest(
                    endgame_wanted_from(self@, peer_position(self@.peers, peer_id@)),
                    self@.frequency,
                    choice.unwrap() as int,
                ),
            },
    {
        let id = peer_id.to_owned();
        let at = self.find_peer(&id);
        if at >= self.peers.len() {
            return None;
        }
        let candidates = self.candidates_of(at, false);
        let total = self.total_pieces;
        let mut count: usize = 0;
        let mut i: usize = 0;
        while i < total
            invariant
                i <= total,
                count == count_set(candidates@.take(i as int)),
                count <= i,
            decreases total - i,
        {
            proof {
                assert(candidates@.take(i + 1).drop_last() =~= candidates@.take(i as int));
            }
            if candidates[i] {
                count += 1;
            }
            i += 1;
        }
        proof {
            assert(candidates@.take(total as int) =~= candidates@);
            crate::grid::bitfield::lemma_count_set_extremes(candidates@);
        }
        if count == 0 {
            return None;
        }
        match self.mode {
            ScheduleMode::RandomFirst => {
                let rank = random_below(count);
                let mut seen: usize = 0;
                let mut last: usize = total;
                let mut j: usize = 0;
                while j < total
                    invariant
                        j <= total,
                        seen <= rank + 1,
                        last <= total,
                        last < total ==> candidates@[last as int],
                        seen > 0 ==> last < total,
                        (forall|c: int| 0 <= c < j ==> !candidates@[c]) || last < total,
                    decreases total - j,
                {
                    if candidates[j] && seen <= rank {
                        last = j;
                        seen += 1;
                    }
                    j += 1;
                }
                Some(last)
            },
            ScheduleMode::RareFirst => self.select_rarest(&candidates),
            ScheduleMode::Endgame => {
                let all = self.candidates_of(at, true);
                proof {
                    let w = choose|w: int| 0 <= w < candidates@.len() && candidates@[w];
                    assert(all@[w]);
                }
                self.select_rarest(&all)
            },
        }
    }

    /// A round of requests, at most one per peer and `max_requests` in
    /// all, the most urgent first.
    #[verifier::loop_isolation(false)]
    #[verifier::rlimit(60)]
    pub fn generate_requests(&self, max_requests: usize) -> (requests: Vec<PieceRequest>)
        requires
            self.wf(),
        ensures
            is_request_round(self@, max_requests as nat, requests@),
    {
        let total = self.total_pieces;
        let ghost view = self@;
        let mut requests: Vec<PieceRequest> = Vec::new();
        let mut used = blank(total);
        let mut q: usize = 0;
        proof {
            crate::grid::bitfield::lemma_count_set_extremes(used@);
        }
        while q < self.peers.len() && requests.len() < max_requests
            invariant
                q <= self.peers@.len(),
                used@.len() == total,
                requests@.len() <= max_requests,
                requests@.len() <= q,
                count_set(used@) == requests@.len(),
                forall|i: int| 0 <= i < total ==> used@[i] == requests_piece(requests@, i),
                forall|k: int| 0 <= k < requests@.len() ==> valid_request(view, #[trigger] requests@[k]),
                forall|k: int|
                    0 <= k < requests@.len() ==> 0 <= peer_position(
                        view.peers,
                        (#[trigger] requests@[k]).target_peer@,
                    ) < q,
                forall|j: int, k: int|
                    0 <= j < k < requests@.len() ==> (#[trigger] requests@[j]).piece_index != (
                    #[trigger] requests@[k]).piece_index,
                forall|j: int, k: int|
                    0 <= j < k < requests@.len() ==> (#[trigger] requests@[j]).target_peer@ != (
                    #[trigger] requests@[k]).target_peer@,
                forall|j: int, k: int|
                    0 <= j < k < requests@.len() ==> (#[trigger] requests@[j]).priority >= (
                    #[trigger] requests@[k]).priority,
                forall|k: int|
                    0 <= k < requests@.len() ==> among_rarest(
                        free_for(view, requests@, #[trigger] requests@[k]),
                        view.frequency,
                        requests@[k].piece_index as int,
                    ),
                forall|p: int|
                    0 <= p < q ==> requests_peer(requests@, (#[trigger] view.peers[p]).0)
                        || forall|i: int|
                        0 <= i < total && #[trigger] wanted_from(view, p)[i] ==> used@[i],
            decreases self.peers@.len() - q,
        {
            let wanted = self.candidates_of(q, false);
            let mut candidates: Vec<bool> = Vec::new();
            let mut i: usize = 0;
            while i < total
                invariant
                    i <= total,
                    candidates@.len() == i,
                    forall|c: int| 0 <= c < i ==> candidates@[c] == (wanted@[c] && !used@[c]),
                decreases total - i,
            {
                candidates.push(wanted[i] && !used[i]);
                i += 1;
            }
            let ghost before = requests@;
            let ghost used_before = used@;
            let ghost name = view.peers[q as int].0;
            proof {
                lemma_peer_position(view.peers, name);
                assert(peer_position(view.peers, name) == q) by {
                    let found = peer_position(view.peers, name);
                    if found < q {
                        assert(view.peers[found].0 != view.peers[q as int].0);
                    }
                }
            }
            match self.select_rarest(&candidates) {
                Some(piece) => {
                    let frequency = self.piece_frequency[piece];
                    let priority: u32 = if frequency == 1 {
                        100
                    } else if frequency >= 99 {
                        1
                    } else {
                        (100 - frequency) as u32
                    };
                    let request = PieceRequest {
                        piece_index: piece,
                        target_peer: self.peers[q].id.clone(),
                        priority,
                    };
                    let mut slot: usize = requests.len();
                    while slot > 0 && requests[slot - 1].priority < priority
                        invariant
                            slot <= requests@.len(),
                            forall|k: int|
                                slot <= k < requests@.len() ==> (#[trigger] requests@[k]).priority
                                    < priority,
                        decreases slot,
                    {
                        slot -= 1;
                    }
                    proof {
                        assert(request.target_peer@ == name);
                        assert(valid_request(view, request));
                        lemma_count_set_update(used_before, piece as int, true);
                    }
                    requests.insert(slot, request);
                    used.set(piece, true);
                    proof {
                        let after = requests@;
                        assert forall|k: int| 0 <= k < after.len() implies (#[trigger] after[k])
                            == if k < slot {
                            before[k]
                        } else if k == slot {
                            request
                        } else {
                            before[k - 1]
                        } by {}
                        assert forall|i: int| 0 <= i < total implies used@[i] == requests_piece(
                            after,
                            i,
                        ) by {
                            if used_before[i] {
                                let k = choose|k: int|
                                    0 <= k < before.len() && (#[trigger] before[k]).piece_index == i;
                                let m = if k < slot { k } else { k + 1 };
                                assert(after[m].piece_index == i);
                            }
                            if i == piece {
                                assert(after[slot as int].piece_index == i);
                            }
                            if requests_piece(after, i) && i != piece {
                                let m = choose|m: int|
                                    0 <= m < after.len() && (#[trigger] after[m]).piece_index == i;
                                let k = if m < slot { m } else { m - 1 };
                                assert(before[k].piece_index == i);
                            }
                        }
                        assert forall|p: int| 0 <= p < q + 1 implies requests_peer(
                            after,
                            (#[trigger] view.peers[p]).0,
                        ) || forall|i: int|
                            0 <= i < total && #[trigger] wanted_from(view, p)[i] ==> used@[i] by {
                            if p == q {
                                assert(after[slot as int].target_peer@ == name);
                            } else if requests_peer(before, view.peers[p].0) {
                                let k = choose|k: int|
                                    0 <= k < before.len() && (#[trigger] before[k]).target_peer@
                                        == view.peers[p].0;
                                let m = if k < slot { k } else { k + 1 };
                                assert(after[m].target_peer@ == view.peers[p].0);
                            }
                        }
                        assert forall|j: int, k: int| 0 <= j < k < after.len() implies (
                        #[trigger] after[j]).piece_index != (#[trigger] after[k]).piece_index by {
                            let a = if j < slot { j } else { j - 1 };
                            let b = if k < slot { k } else { k - 1 };
                            if j != slot && k != slot {
                                assert(before[a].piece_index != before[b].piece_index);
                            } else if j == slot {
                                assert(requests_piece(before, before[b].piece_index as int));
                            } else {
                                assert(requests_piece(before, before[a].piece_index as int));
                            }
                        }
                        assert forall|j: int, k: int| 0 <= j < k < after.len() implies (
                        #[trigger] after[j]).target_peer@ != (#[trigger] after[k]).target_peer@ by {
                            let a = if j < slot { j } else { j - 1 };
                            let b = if k < slot { k } else { k - 1 };
                            if j != slot && k != slot {
                                assert(before[a].target_peer@ != before[b].target_peer@);
                            } else if j == slot {
                                assert(peer_position(view.peers, before[b].target_peer@) < q);
                            } else {
                                assert(peer_position(view.peers, before[a].target_peer@) < q);
                            }
                        }
                        assert forall|j: int, k: int| 0 <= j < k < after.len() implies (
                        #[trigger] after[j]).priority >= (#[trigger] after[k]).priority by {
                            let a = if j < slot { j } else { j - 1 };
                            let b = if k < slot { k } else { k - 1 };
                            if j != slot && k != slot {
                                assert(before[a].priority >= before[b].priority);
                            } else if j == slot {
                                assert(before[b].priority < priority);
                            } else {
                                if slot > 0 {
                                    assert(before[slot - 1].priority >= priority);
                                    if a < slot - 1 {
                                        assert(before[a].priority >= before[slot - 1].priority);
                                    }
                                }
                            }
                        }
                        assert forall|k: int| 0 <= k < after.len() implies 0 <= peer_position(
                            view.peers,
                            (#[trigger] after[k]).target_peer@,
                        ) < q + 1 && valid_request(view, after[k]) && among_rarest(
                            free_for(view, after, after[k]),
                            view.frequency,
                            after[k].piece_index as int,
                        ) by {
                            let mine = after[k].piece_index as int;
                            let now_free = free_for(view, after, after[k]);
                            if k != slot {
                                let a = if k < slot { k } else { k - 1 };
                                assert(after[k] == before[a]);
                                assert(valid_request(view, before[a]));
                                let was_free = free_for(view, before, before[a]);
                                assert forall|i: int| 0 <= i < total && now_free[i] implies was_free[i] by {
                                    if i != mine && requests_piece(before, i) {
                                        assert(used_before[i]);
                                        assert(used@[i]);
                                    }
                                }
                                lemma_count_set_subset(
                                    rarer_candidates(now_free, view.frequency, mine),
                                    rarer_candidates(was_free, view.frequency, mine),
                                );
                            } else {
                                assert forall|i: int| 0 <= i < total && now_free[i] implies candidates@[i] by {
                                    if i != mine {
                                        assert(!requests_piece(after, i));
                                        assert(!used@[i]);
                                        assert(!used_before[i]);
                                    }
                                }
                                lemma_count_set_subset(
                                    rarer_candidates(now_free, view.frequency, mine),
                                    rarer_candidates(candidates@, view.frequency, mine),
                                );
                            }
                        }
                    }
                },
                None => {
                    proof {
                        assert forall|i: int|
                            0 <= i < total && #[trigger] wanted_from(view, q as int)[i] implies used@[i] by {
                            assert(!candidates@[i]);
                        }
                    }
                },
            }
            q += 1;
        }
        proof {
            if requests@.len() < max_requests {
                assert(q == self.peers@.len());
                assert forall|p: int| 0 <= p < view.peers.len() implies requests_peer(
                    requests@,
                    (#[trigger] view.peers[p]).0,
                ) || forall|i: int|
                    0 <= i < view.total_pieces && #[trigger] wanted_from(view, p)[i]
                        ==> requests_piece(requests@, i) by {}
            }
        }
        requests
    }

    /// In the end game, each piece not held with the peers that hold it,
    /// by growing piece index; nothing in the other modes.
    #[verifier::loop_isolation(false)]
    pub fn endgame_requests(&self) -> (asks: Vec<(usize, Vec<PeerId>)>)
        requires
            self.wf(),
        ensures
            self@.mode != ScheduleMode::Endgame ==> asks@.len() == 0,
            self@.mode == ScheduleMode::Endgame ==> {
                let missing = crate::grid::bitfield::set_positions(
                    crate::grid::bitfield::negated(self@.mine),
                );
                &&& asks@.len() == missing.len()
                &&& forall|k: int|
                    0 <= k < asks@.len() ==> (#[trigger] asks@[k]).0 == missing[k] && names_of(
                        asks@[k].1@,
                    ) == holder_names(self@.peers, missing[k])
            },
    {
        let mut asks: Vec<(usize, Vec<PeerId>)> = Vec::new();
        if self.mode != ScheduleMode::Endgame {
            return asks;
        }
        let ghost lacking = crate::grid::bitfield::negated(self@.mine);
        let ghost peers = self@.peers;
        let mut piece: usize = 0;
        while piece < self.total_pieces
            invariant
                piece <= self.total_pieces,
                asks@.len() == crate::grid::bitfield::set_positions(lacking.take(piece as int)).len(),
                forall|k: int|
                    0 <= k < asks@.len() ==> (#[trigger] asks@[k]).0
                        == crate::grid::bitfield::set_positions(lacking.take(piece as int))[k]
                        && names_of(asks@[k].1@) == holder_names(peers, asks@[k].0 as int),
            decreases self.total_pieces - piece,
        {
            proof {
                assert(lacking.take(piece + 1).drop_last() =~= lacking.take(piece as int));
            }
            if !self.my_pieces[piece] {
                let mut names: Vec<PeerId> = Vec::new();
                let mut q: usize = 0;
                proof {
                    assert(names_of(names@) =~= holder_names(peers.take(0), piece as int));
                }
                while q < self.peers.len()
                    invariant
                        q <= self.peers@.len(),
                        names_of(names@) == holder_names(peers.take(q as int), piece as int),
                    decreases self.peers@.len() - q,
                {
                    proof {
                        assert(peers.take(q + 1).drop_last() =~= peers.take(q as int));
                        assert(peers.take(q + 1).last() == peers[q as int]);
                        assert(peers[q as int].1 == self.peers@[q as int].pieces@);
                    }
                    if self.peers[q].pieces[piece] {
                        let ghost before = names@;
                        names.push(self.peers[q].id.clone());
                        proof {
                            assert(names_of(names@) =~= names_of(before).push(peers[q as int].0));
                        }
                    }
                    q += 1;
                }
                proof {
                    assert(peers.take(q as int) =~= peers);
                }
                asks.push((piece, names));
            }
            piece += 1;
        }
        proof {
            assert(lacking.take(piece as int) =~= lacking);
        }
        asks
    }

    /// A summary of the state.
    #[verifier::loop_isolation(false)]
    pub fn stats(&self) -> (stats: SchedulerStats)
        requires
            self.wf(),
        ensures
            stats.total_pieces == self@.total_pieces,
            stats.completed == self@.completed(),
            stats.pending == count_set(self@.pending),
            stats.connected_peers == self@.peers.len(),
            stats.mode == self@.mode,
            is_rarest_missing(self@, stats.rarest_piece),
    {
        let total = self.total_pieces;
        let mut pending: usize = 0;
        let mut rarest: Option<(usize, usize)> = None;
        let mut i: usize = 0;
        while i < total
            invariant
                i <= total,
                pending == count_set(self.pending_pieces@.take(i as int)),
                pending <= i,
                match rarest {
                    None => forall|k: int| 0 <= k < i ==> self.my_pieces@[k],
                    Some((piece, frequency)) => {
                        &&& piece < i
                        &&& !self.my_pieces@[piece as int]
                        &&& frequency == self.piece_frequency@[piece as int]
                        &&& forall|k: int|
                            0 <= k < i && !self.my_pieces@[k] ==> frequency
                                <= self.piece_frequency@[k]
                        &&& forall|k: int|
                            0 <= k < piece && !self.my_pieces@[k] ==> frequency
                                < self.piece_frequency@[k]
                    },
                },
            decreases total - i,
        {
            proof {
                assert(self.pending_pieces@.take(i + 1).drop_last() =~= self.pending_pieces@.take(
                    i as int,
                ));
            }
            if self.pending_pieces[i] {
                pending += 1;
            }
            if !self.my_pieces[i] {
                let frequency = self.piece_frequency[i];
                rarest = match rarest {
                    None => Some((i, frequency)),
                    Some((piece, least)) => if frequency < least {
                        Some((i, frequency))
                    } else {
                        Some((piece, least))
                    },
                };
            }
            i += 1;
        }
        proof {
            assert(self.pending_pieces@.take(total as int) =~= self.pending_pieces@);
        }
        SchedulerStats {
            total_pieces: total,
            completed: self.completed,
            pending,
            connected_peers: self.peers.len(),
            mode: self.mode,
            rarest_piece: rarest,
        }
    }

    /// The number of pieces that the peer `peer_id` is known to hold; zero
    /// for an unknown peer.
    #[verifier::loop_isolation(false)]
    pub fn peer_piece_count(&self, peer_id: &str) -> (n: usize)
        requires
            self.wf(),
        ensures
            n == if peer_position(self@.peers, peer_id@) >= 0 {
                count_set(self@.peers[peer_position(self@.peers, peer_id@)].1)
            } else {
                0
            },
    {
        let id = peer_id.to_owned();
        let at = self.find_peer(&id);
        if at >= self.peers.len() {
            return 0;
        }
        let pieces = &self.peers[at].pieces;
        proof {
            assert(self@.peers[at as int].1 == pieces@);
        }
        let mut n: usize = 0;
        let mut i: usize = 0;
        while i < pieces.len()
            invariant
                i <= pieces@.len(),
                n == count_set(pieces@.take(i as int)),
                n <= i,
            decreases pieces@.len() - i,
        {
            proof {
                assert(pieces@.take(i + 1).drop_last() =~= pieces@.take(i as int));
            }
            if pieces[i] {
                n += 1;
            }
            i += 1;
        }
        proof {
            assert(pieces@.take(i as int) =~= pieces@);
        }
        n
    }

    /// Whether the peer `peer_id` is known to hold a piece that is not
    /// held here.
    #[verifier::loop_isolation(false)]
    pub fn peer_offers_wanted(&self, peer_id: &str) -> (offers: bool)
        requires
            self.wf(),
        ensures
            offers == (peer_position(self@.peers, peer_id@) >= 0 && exists|i: int|
                0 <= i < self@.total_pieces && #[trigger] endgame_wanted_from(
                    self@,
                    peer_position(self@.peers, peer_id@),
                )[i]),
    {
        let id = peer_id.to_owned();
        let at = self.find_peer(&id);
        if at >= self.peers.len() {
            return false;
        }
        proof {
            assert(self@.peers[at as int].1 == self.peers@[at as int].pieces@);
        }
        let mut i: usize = 0;
        while i < self.total_pieces
            invariant
                i <= self.total_pieces,
                forall|k: int| 0 <= k < i ==> !#[trigger] endgame_wanted_from(self@, at as int)[k],
            decreases self.total_pieces - i,
        {
            if self.peers[at].pieces[i] && !self.my_pieces[i] {
                assert(endgame_wanted_from(self@, at as int)[i as int]);
                return true;
            }
            i += 1;
        }
        false
    }

    /// Whether every piece is held.
    pub fn is_complete(&self) -> (complete: bool)
        requires
            self.wf(),
        ensures
            complete == (self@.completed() == self@.total_pieces),
            complete == (forall|i: int| 0 <= i < self@.total_pieces ==> self@.mine[i]),
    {
        proof {
            crate::grid::bitfield::lemma_count_set_extremes(self.my_pieces@);
        }
        self.completed == self.total_pieces
    }

    /// Notes that piece `index` is held now and no longer asked for; an
    /// index past the end changes nothing. The mode follows the progress.
    pub fn mark_completed(&mut self, index: usize)
        requires
            old(self).wf(),
        ensures
            final(self).wf(),
            index < old(self)@.total_pieces ==> final(self)@ == (SchedulerView {
                mine: old(self)@.mine.update(index as int, true),
                pending: old(self)@.pending.update(index as int, false),
                mode: mode_for(
                    count_set(old(self)@.mine.update(index as int, true)),
                    old(self)@.total_pieces,
                    old(self)@.endgame_threshold,
                ),
                ..old(self)@
            }),
            index >= old(self)@.total_pieces ==> final(self)@ == (SchedulerView {
                mode: mode_for(
                    old(self)@.completed(),
                    old(self)@.total_pieces,
                    old(self)@.endgame_threshold,
                ),
                ..old(self)@
            }),
    {
        if index < self.total_pieces {
            proof {
                lemma_count_set_update(self.my_pieces@, index as int, true);
                lemma_count_set_bound(self.my_pieces@.update(index as int, true));
            }
            if !self.my_pieces[index] {
                self.my_pieces.set(index, true);
                self.completed = self.completed + 1;
            }
            self.pending_pieces.set(index, false);
            proof {
                assert(self.my_pieces@ =~= old(self).my_pieces@.update(index as int, true));
                assert(self@.peers =~= old(self)@.peers);
            }
        }
        self.update_mode();
    }

    /// Notes that a request for piece `index` is under way; an index past
    /// the end changes nothing.
    pub fn mark_pending(&mut self, index: usize)
        requires
            old(self).wf(),
        ensures
            final(self).wf(),
            index < old(self)@.total_pieces ==> final(self)@ == (SchedulerView {
                pending: old(self)@.pending.update(index as int, true),
                ..old(self)@
            }),
            index >= old(self)@.total_pieces ==> final(self)@ == old(self)@,
    {
        if index < self.total_pieces {
            self.pending_pieces.set(index, true);
            proof {
                assert(self@.peers =~= old(self)@.peers);
            }
        }
    }

    /// Notes that no request for piece `index` is under way any more; an
    /// index past the end changes nothing.
    pub fn unmark_pending(&mut self, index: usize)
        requires
            old(self).wf(),
        ensures
            final(self).wf(),
            index < old(self)@.total_pieces ==> final(self)@ == (SchedulerView {
                pending: old(self)@.pending.update(index as int, false),
                ..old(self)@
            }),
            index >= old(self)@.total_pieces ==> final(self)@ == old(self)@,
    {
        if index < self.total_pieces {
            self.pending_pieces.set(index, false);
            proof {
                assert(self@.peers =~= old(self)@.peers);
            }
        }
    }
}

} // verus!
