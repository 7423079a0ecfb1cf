//! Rotation analysis, the integer side: the team-size rule, the key under
//! which a pair of teammates' double commits are tracked, the cooldown
//! between two double commits of one pair, and the per-player counters.
//!
//! Distances, sides of the field and directions of travel are geometric
//! questions a caller answers from positions; this module takes the answers.

use std::collections::HashMap;
use vstd::prelude::*;

use crate::replay::AnalysisError;

verus! {

/// Frames (about one second) that must pass before the same pair of
/// teammates is charged with another double commit.
pub const DOUBLE_COMMIT_COOLDOWN: usize = 120;

/// Frames (about a quarter second) of upfield travel in the offensive half
/// that make one offensive push.
pub const MOMENTUM_MIN_FRAMES: usize = 30;

// ---------------------------------------------------------------------------
// Team size
// ---------------------------------------------------------------------------

/// Rotation needs teammates: the analysis runs on 2v2 and 3v3 only. A
/// missing team size reads as 0.
pub fn check_team_size(team_size: i64) -> (r: Result<(), AnalysisError>)
    ensures
        2 <= team_size <= 3 <==> r is Ok,
        team_size < 2 ==> r == Err::<(), AnalysisError>(
            AnalysisError::Unsupported("Rotation analysis requires 2v2 or 3v3 (skipping 1v1)"),
        ),
        team_size > 3 ==> r == Err::<(), AnalysisError>(
            AnalysisError::Unsupported("Rotation analysis not supported for 4v4"),
        ),
{
    if team_size < 2 {
        return Err(
            AnalysisError::Unsupported("Rotation analysis requires 2v2 or 3v3 (skipping 1v1)"),
        );
    }
    if team_size > 3 {
        return Err(AnalysisError::Unsupported("Rotation analysis not supported for 4v4"));
    }
    Ok(())
}

// ---------------------------------------------------------------------------
// Pair keys
// ---------------------------------------------------------------------------

/// Lexicographic order of two texts from position `i` on, by code point.
/// (Byte order of UTF-8, which is how strings compare, agrees with the code
/// point order.)
pub open spec fn lex_less_from(a: Seq<char>, b: Seq<char>, i: nat) -> bool
    decreases a.len() - i,
{
    if i >= a.len() {
        i < b.len()
    } else if i >= b.len() {
        false
    } else if a[i as int] != b[i as int] {
        (a[i as int] as int) < (b[i as int] as int)
    } else {
        lex_less_from(a, b, i + 1)
    }
}

/// `a < b` for texts.
pub open spec fn lex_less(a: Seq<char>, b: Seq<char>) -> bool {
    lex_less_from(a, b, 0)
}

/// The key of a pair of names: the two names in increasing order.
pub open spec fn pair_key(a: Seq<char>, b: Seq<char>) -> (Seq<char>, Seq<char>) {
    if lex_less(a, b) {
        (a, b)
    } else {
        (b, a)
    }
}

proof fn lemma_lex_from_trichotomy(a: Seq<char>, b: Seq<char>, i: nat)
    requires
        i <= a.len(),
        i <= b.len(),
        a.subrange(0, i as int) == b.subrange(0, i as int),
    ensures
        !(lex_less_from(a, b, i) && lex_less_from(b, a, i)),
        !lex_less_from(a, b, i) && !lex_less_from(b, a, i) ==> a == b,
    decreases a.len() - i,
{
    if i < a.len() && i < b.len() && a[i as int] == b[i as int] {
        assert(a.subrange(0, i + 1int) == a.subrange(0, i as int).push(a[i as int]));
        assert(b.subrange(0, i + 1int) == b.subrange(0, i as int).push(b[i as int]));
        lemma_lex_from_trichotomy(a, b, i + 1);
    } else if i >= a.len() && i >= b.len() {
        assert(a == a.subrange(0, i as int));
        assert(b == b.subrange(0, i as int));
    } else if i < a.len() && i < b.len() {
        let x = a[i as int];
        let y = b[i as int];
        assert(x != y);
        assert((x as int) != (y as int));
    }
}

/// Two different names are ordered one way or the other, never both.
pub proof fn lemma_lex_less_trichotomy(a: Seq<char>, b: Seq<char>)
    ensures
        !(lex_less(a, b) && lex_less(b, a)),
        a != b ==> lex_less(a, b) || lex_less(b, a),
{
    assert(a.subrange(0, 0) == b.subrange(0, 0));
    lemma_lex_from_trichotomy(a, b, 0);
}

/// The key of a pair does not depend on the order in which the two names
/// are given.
pub proof fn law_pair_key_symmetric(a: Seq<char>, b: Seq<char>)
    ensures
        pair_key(a, b) == pair_key(b, a),
{
    lemma_lex_less_trichotomy(a, b);
}

fn lex_less_exec(a: &str, b: &str) -> (r: bool)
    ensures
        r == lex_less(a@, b@),
{
    let a_len = a.unicode_len();
    let b_len = b.unicode_len();
    let mut i: usize = 0;
    while i < a_len && i < b_len
        invariant
            a_len == a@.len(),
            b_len == b@.len(),
            i <= a_len,
            i <= b_len,
            lex_less(a@, b@) == lex_less_from(a@, b@, i as nat),
        decreases a_len - i,
    {
        let x = a.get_char(i);
        let y = b.get_char(i);
        if x != y {
            return (x as u32) < (y as u32);
        }
        i = i + 1;
    }
    i < b_len
}

/// The key under which a pair of teammates' double commits are tracked:
/// the two names, smaller first.
pub fn make_pair_key(a: &str, b: &str) -> (key: (String, String))
    ensures
        (key.0@, key.1@) == pair_key(a@, b@),
{
    proof {
        broadcast use vstd::string::group_string_axioms;
    }
    if lex_less_exec(a, b) {
        (a.to_string(), b.to_string())
    } else {
        (b.to_string(), a.to_string())
    }
}


// ---------------------------------------------------------------------------
// Double-commit cooldowns
// ---------------------------------------------------------------------------

/// Whether a double commit at frame `frame_idx` is charged, given the frame
/// of the pair's last charged one (a pair never charged counts as charged at
/// frame 0).
pub open spec fn commit_due(last: Option<usize>, frame_idx: usize) -> bool {
    let l: int = match last {
        Some(f) => f as int,
        None => 0,
    };
    frame_idx >= l + DOUBLE_COMMIT_COOLDOWN
}

/// The frame recorded for key `k` in `s`, looking from position `i` on.
pub open spec fn commit_lookup_from(
    s: Seq<(Seq<char>, Seq<char>, usize)>,
    k: (Seq<char>, Seq<char>),
    i: nat,
) -> Option<usize>
    decreases s.len() - i,
{
    if i >= s.len() {
        None
    } else if (s[i as int].0, s[i as int].1) == k {
        Some(s[i as int].2)
    } else {
        commit_lookup_from(s, k, i + 1)
    }
}

/// The frame of each pair's last charged double commit, for one team.
pub struct CommitCooldowns {
    entries: Vec<(String, String, usize)>,
}

impl CommitCooldowns {
    /// The recorded entries, names by their text.
    pub closed spec fn entry_views(&self) -> Seq<(Seq<char>, Seq<char>, usize)> {
        self.entries@.map_values(|e: (String, String, usize)| (e.0@, e.1@, e.2))
    }

    /// The frame of the last charged double commit of the pair with key `k`.
    pub open spec fn last_commit(&self, k: (Seq<char>, Seq<char>)) -> Option<usize> {
        commit_lookup_from(self.entry_views(), k, 0)
    }

    /// No pair charged yet.
    pub fn new() -> (c: Self)
        ensures
            forall|k: (Seq<char>, Seq<char>)| c.last_commit(k) is None,
    {
        let c = CommitCooldowns { entries: Vec::new() };
        assert(c.entry_views().len() == 0);
        c
    }

    /// A double commit of `a` and `b` at frame `frame_idx`: charged, and
    /// remembered as the pair's last, when the cooldown since the pair's
    /// last charged one has passed; otherwise nothing changes. Returns
    /// whether it was charged.
    pub fn record_if_due(&mut self, a: &str, b: &str, frame_idx: usize) -> (charged: bool)
        ensures
            charged == commit_due(old(self).last_commit(pair_key(a@, b@)), frame_idx),
            charged ==> final(self).last_commit(pair_key(a@, b@)) == Some(frame_idx),
            !charged ==> final(self).entry_views() == old(self).entry_views(),
            forall|k: (Seq<char>, Seq<char>)|
                k != pair_key(a@, b@) ==> #[trigger] final(self).last_commit(k) == old(
                    self,
                ).last_commit(k),
    {
        let key = make_pair_key(a, b);
        let ghost kv = pair_key(a@, b@);
        let ghost s = self.entry_views();
        let mut i: usize = 0;
        while i < self.entries.len()
            invariant
                s == self.entry_views(),
                self.entries@.len() == s.len(),
                (key.0@, key.1@) == kv,
                i <= s.len(),
                commit_lookup_from(s, kv, 0) == commit_lookup_from(s, kv, i as nat),
                forall|j: int| 0 <= j < i ==> (#[trigger] s[j].0, s[j].1) != kv,
            ensures
                i <= s.len(),
                commit_lookup_from(s, kv, 0) == commit_lookup_from(s, kv, i as nat),
                forall|j: int| 0 <= j < i ==> (#[trigger] s[j].0, s[j].1) != kv,
                i < s.len() ==> (s[i as int].0, s[i as int].1) == kv,
            decreases s.len() - i,
        {
            proof {
                broadcast use vstd::string::group_string_axioms;
            }
            if self.entries[i].0 == key.0 && self.entries[i].1 == key.1 {
                break;
            }
            i = i + 1;
        }
        assert(self.entries@.len() == s.len());
        let last: usize = if i < self.entries.len() {
            self.entries[i].2
        } else {
            0
        };
        assert(commit_lookup_from(s, kv, 0) == (if i < s.len() {
            Some(s[i as int].2)
        } else {
            None::<usize>
        }));
        if frame_idx < last || frame_idx - last < DOUBLE_COMMIT_COOLDOWN {
            return false;
        }
        let ghost old_entries = self.entries@;
        if i < self.entries.len() {
            let entry = (key.0, key.1, frame_idx);
            self.entries.set(i, entry);
            proof {
                let t = self.entry_views();
                assert(t == s.update(i as int, (kv.0, kv.1, frame_idx)));
                lemma_lookup_update(s, kv, i as nat, frame_idx);
            }
        } else {
            let entry = (key.0, key.1, frame_idx);
            self.entries.push(entry);
            proof {
                let t = self.entry_views();
                assert(t == s.push((kv.0, kv.1, frame_idx)));
                lemma_lookup_push(s, kv, frame_idx);
            }
        }
        true
    }
}

proof fn lemma_lookup_prefix_unchanged(
    s: Seq<(Seq<char>, Seq<char>, usize)>,
    t: Seq<(Seq<char>, Seq<char>, usize)>,
    k: (Seq<char>, Seq<char>),
    i: nat,
    n: nat,
)
    requires
        i <= n <= s.len(),
        n <= t.len(),
        forall|j: int| i <= j < n ==> #[trigger] s[j] == t[j],
        commit_lookup_from(s, k, n) == commit_lookup_from(t, k, n),
    ensures
        commit_lookup_from(s, k, i) == commit_lookup_from(t, k, i),
    decreases n - i,
{
    if i < n {
        lemma_lookup_prefix_unchanged(s, t, k, i + 1, n);
    }
}

proof fn lemma_lookup_update(
    s: Seq<(Seq<char>, Seq<char>, usize)>,
    k: (Seq<char>, Seq<char>),
    i: nat,
    f: usize,
)
    requires
        i < s.len(),
        (s[i as int].0, s[i as int].1) == k,
        commit_lookup_from(s, k, 0) == Some(s[i as int].2),
        forall|j: int| 0 <= j < i ==> (#[trigger] s[j].0, s[j].1) != k,
    ensures
        commit_lookup_from(s.update(i as int, (k.0, k.1, f)), k, 0) == Some(f),
        forall|k2: (Seq<char>, Seq<char>)|
            k2 != k ==> #[trigger] commit_lookup_from(s.update(i as int, (k.0, k.1, f)), k2, 0)
                == commit_lookup_from(s, k2, 0),
{
    let t = s.update(i as int, (k.0, k.1, f));
    assert(commit_lookup_from(t, k, i) == Some(f));
    lemma_lookup_skip(t, k, 0, i);
    assert forall|k2: (Seq<char>, Seq<char>)| k2 != k implies #[trigger] commit_lookup_from(
        t,
        k2,
        0,
    ) == commit_lookup_from(s, k2, 0) by {
        lemma_lookup_tail_equal(s, t, k2, i + 1);
        assert(commit_lookup_from(t, k2, i) == commit_lookup_from(t, k2, i + 1));
        assert(commit_lookup_from(s, k2, i) == commit_lookup_from(s, k2, i + 1));
        lemma_lookup_prefix_unchanged(s, t, k2, 0, i);
    }
}

proof fn lemma_lookup_skip(s: Seq<(Seq<char>, Seq<char>, usize)>, k: (Seq<char>, Seq<char>), i: nat, n: nat)
    requires
        i <= n <= s.len(),
        forall|j: int| i <= j < n ==> (#[trigger] s[j].0, s[j].1) != k,
    ensures
        commit_lookup_from(s, k, i) == commit_lookup_from(s, k, n),
    decreases n - i,
{
    if i < n {
        lemma_lookup_skip(s, k, i + 1, n);
    }
}

proof fn lemma_lookup_tail_equal(
    s: Seq<(Seq<char>, Seq<char>, usize)>,
    t: Seq<(Seq<char>, Seq<char>, usize)>,
    k: (Seq<char>, Seq<char>),
    i: nat,
)
    requires
        s.len() == t.len(),
        forall|j: int| i <= j < s.len() ==> #[trigger] s[j] == t[j],
    ensures
        commit_lookup_from(s, k, i) == commit_lookup_from(t, k, i),
    decreases s.len() - i,
{
    if i < s.len() {
        lemma_lookup_tail_equal(s, t, k, i + 1);
    }
}

proof fn lemma_lookup_push(
    s: Seq<(Seq<char>, Seq<char>, usize)>,
    k: (Seq<char>, Seq<char>),
    f: usize,
)
    requires
        commit_lookup_from(s, k, 0) is None,
    ensures
        commit_lookup_from(s.push((k.0, k.1, f)), k, 0) == Some(f),
        forall|k2: (Seq<char>, Seq<char>)|
            k2 != k ==> #[trigger] commit_lookup_from(s.push((k.0, k.1, f)), k2, 0)
                == commit_lookup_from(s, k2, 0),
{
    let t = s.push((k.0, k.1, f));
    assert(commit_lookup_from(t, k, s.len()) == Some(f));
    assert(commit_lookup_from(s, k, s.len()) is None);
    assert forall|j: int| 0 <= j < s.len() implies #[trigger] s[j] == t[j] by {}
    lemma_lookup_none_prefix(s, t, k, 0);
    assert forall|k2: (Seq<char>, Seq<char>)| k2 != k implies #[trigger] commit_lookup_from(
        t,
        k2,
        0,
    ) == commit_lookup_from(s, k2, 0) by {
        assert(commit_lookup_from(t, k2, s.len() + 1) is None);
        assert(commit_lookup_from(t, k2, s.len()) is None);
        lemma_lookup_prefix_unchanged(s, t, k2, 0, s.len());
    }
}

proof fn lemma_lookup_none_prefix(
    s: Seq<(Seq<char>, Seq<char>, usize)>,
    t: Seq<(Seq<char>, Seq<char>, usize)>,
    k: (Seq<char>, Seq<char>),
    i: nat,
)
    requires
        i <= s.len() < t.len(),
        forall|j: int| 0 <= j < s.len() ==> #[trigger] s[j] == t[j],
        commit_lookup_from(s, k, i) is None,
        commit_lookup_from(t, k, s.len()) is Some,
    ensures
        commit_lookup_from(t, k, i) == commit_lookup_from(t, k, s.len()),
    decreases s.len() - i,
{
    if i < s.len() {
        lemma_lookup_none_prefix(s, t, k, i + 1);
    }
}

/// Once a pair's double commit is charged at frame `f`, no double commit of
/// the same two players, named in either order, is charged before frame
/// `f + DOUBLE_COMMIT_COOLDOWN`.
pub proof fn law_double_commits_spaced(c: CommitCooldowns, a: Seq<char>, b: Seq<char>, f: usize, g: usize)
    requires
        c.last_commit(pair_key(a, b)) == Some(f),
        g < f + DOUBLE_COMMIT_COOLDOWN,
    ensures
        !commit_due(c.last_commit(pair_key(b, a)), g),
{
    law_pair_key_symmetric(a, b);
}


// ---------------------------------------------------------------------------
// Per-player counters
// ---------------------------------------------------------------------------

/// The count under key `k` of a per-minute tally (0 when absent).
pub open spec fn bucket(m: Map<usize, usize>, k: usize) -> usize {
    if m.contains_key(k) {
        m[k]
    } else {
        0
    }
}

/// Whether a tally can take one more count under any key.
pub open spec fn bumpable(m: Map<usize, usize>) -> bool {
    forall|k: usize| m.contains_key(k) ==> #[trigger] m[k] < usize::MAX
}

/// Adds one to the count under `k`.
pub fn bump(tally: &mut HashMap<usize, usize>, k: usize)
    requires
        bumpable(old(tally)@),
    ensures
        final(tally)@ == old(tally)@.insert(k, (bucket(old(tally)@, k) + 1) as usize),
{
    broadcast use vstd::std_specs::hash::group_hash_axioms;

    let current: usize = match tally.get(&k) {
        Some(c) => *c,
        None => 0,
    };
    tally.insert(k, current + 1);
}

/// What one frame says of a player, answered from positions by the caller.
#[derive(Debug, Clone, Copy)]
pub struct RotationFrame {
    /// The car is within chasing distance of the ball.
    pub near_ball: bool,
    /// The car is in the opponents' half.
    pub offensive: bool,
    /// The car travels toward the opponents' goal.
    pub moving_upfield: bool,
    /// The car is in its defensive zone, travelling toward its own goal.
    pub retreating: bool,
    /// The car is on the far side of the ball from the centre line, wide
    /// enough to count as the far post.
    pub at_far_post: bool,
}

/// A player's rotation counters.
#[derive(Debug, Clone)]
pub struct PlayerRotationStats {
    pub name: String,
    pub team: usize,
    pub frames_chasing: usize,
    pub frames_near_ball: usize,
    pub frames_offensive: usize,
    pub frames_defensive: usize,
    pub frames_active: usize,
    /// Offensive pushes: runs of upfield travel in the offensive half that
    /// reached `MOMENTUM_MIN_FRAMES` frames.
    pub offensive_momentum_count: usize,
    /// Length of the current run of upfield travel in the offensive half.
    pub consecutive_upfield_frames: usize,
    pub far_post_retreats: usize,
    pub total_retreats: usize,
    pub per_minute_chase_frames: HashMap<usize, usize>,
    pub per_minute_offensive_frames: HashMap<usize, usize>,
    pub per_minute_total_frames: HashMap<usize, usize>,
}

impl PlayerRotationStats {
    /// How the counters relate: every active frame is offensive or
    /// defensive, the current run lies within the offensive frames, each
    /// push took `MOMENTUM_MIN_FRAMES` offensive frames of its own, and
    /// far-post retreats are retreats.
    pub open spec fn consistent(&self) -> bool {
        &&& self.frames_offensive + self.frames_defensive == self.frames_active
        &&& self.frames_near_ball <= self.frames_active
        &&& self.total_retreats <= self.frames_active
        &&& self.far_post_retreats <= self.total_retreats
        &&& self.consecutive_upfield_frames <= self.frames_offensive
        &&& self.offensive_momentum_count * MOMENTUM_MIN_FRAMES + (
        if self.consecutive_upfield_frames < MOMENTUM_MIN_FRAMES {
            self.consecutive_upfield_frames as int
        } else {
            0
        }) <= self.frames_offensive
    }

    /// Room for one more frame in every counter.
    pub open spec fn has_room(&self) -> bool {
        &&& self.frames_active < usize::MAX
        &&& self.frames_chasing < usize::MAX
        &&& bumpable(self.per_minute_chase_frames@)
        &&& bumpable(self.per_minute_offensive_frames@)
        &&& bumpable(self.per_minute_total_frames@)
    }

    /// A player not yet seen in any frame.
    pub fn new(name: String, team: usize) -> (s: Self)
        ensures
            s.name@ == name@,
            s.team == team,
            s.frames_chasing == 0,
            s.frames_active == 0,
            s.offensive_momentum_count == 0,
            s.per_minute_total_frames@ == Map::<usize, usize>::empty(),
            s.per_minute_offensive_frames@ == Map::<usize, usize>::empty(),
            s.per_minute_chase_frames@ == Map::<usize, usize>::empty(),
            s.consistent(),
            s.has_room(),
    {
        PlayerRotationStats {
            name,
            team,
            frames_chasing: 0,
            frames_near_ball: 0,
            frames_offensive: 0,
            frames_defensive: 0,
            frames_active: 0,
            offensive_momentum_count: 0,
            consecutive_upfield_frames: 0,
            far_post_retreats: 0,
            total_retreats: 0,
            per_minute_chase_frames: HashMap::new(),
            per_minute_offensive_frames: HashMap::new(),
            per_minute_total_frames: HashMap::new(),
        }
    }

    /// Counts one frame of the player in minute `minute`: the frame is
    /// active; near the ball, offensive or defensive as `f` says; an
    /// upfield frame in the offensive half extends the current run, which
    /// is one push when it reaches `MOMENTUM_MIN_FRAMES`, and any other
    /// frame ends the run; a retreat counts, and counts as a far-post one
    /// when the player is at the far post.
    pub fn observe(&mut self, minute: usize, f: RotationFrame)
        requires
            old(self).consistent(),
            old(self).has_room(),
        ensures
            final(self).consistent(),
            final(self).name == old(self).name,
            final(self).team == old(self).team,
            final(self).frames_chasing == old(self).frames_chasing,
            final(self).per_minute_chase_frames@ == old(self).per_minute_chase_frames@,
            final(self).frames_active == old(self).frames_active + 1,
            final(self).per_minute_total_frames@ == old(self).per_minute_total_frames@.insert(
                minute,
                (bucket(old(self).per_minute_total_frames@, minute) + 1) as usize,
            ),
            final(self).frames_near_ball == old(self).frames_near_ball + (if f.near_ball {
                1int
            } else {
                0
            }),
            f.offensive ==> {
                &&& final(self).frames_offensive == old(self).frames_offensive + 1
                &&& final(self).frames_defensive == old(self).frames_defensive
                &&& final(self).per_minute_offensive_frames@
                    == old(self).per_minute_offensive_frames@.insert(
                    minute,
                    (bucket(old(self).per_minute_offensive_frames@, minute) + 1) as usize,
                )
            },
            !f.offensive ==> {
                &&& final(self).frames_offensive == old(self).frames_offensive
                &&& final(self).frames_defensive == old(self).frames_defensive + 1
                &&& final(self).per_minute_offensive_frames@
                    == old(self).per_minute_offensive_frames@
            },
            f.moving_upfield && f.offensive ==> {
                &&& final(self).consecutive_upfield_frames == old(self).consecutive_upfield_frames
                    + 1
                &&& final(self).offensive_momentum_count == old(self).offensive_momentum_count + (
                if final(self).consecutive_upfield_frames == MOMENTUM_MIN_FRAMES {
                    1int
                } else {
                    0
                })
            },
            !(f.moving_upfield && f.offensive) ==> {
                &&& final(self).consecutive_upfield_frames == 0
                &&& final(self).offensive_momentum_count == old(self).offensive_momentum_count
            },
            final(self).total_retreats == old(self).total_retreats + (if f.retreating {
                1int
            } else {
                0
            }),
            final(self).far_post_retreats == old(self).far_post_retreats + (if f.retreating
                && f.at_far_post {
                1int
            } else {
                0
            }),
    {
        self.frames_active = self.frames_active + 1;
        bump(&mut self.per_minute_total_frames, minute);
        if f.near_ball {
            self.frames_near_ball = self.frames_near_ball + 1;
        }
        if f.offensive {
            self.frames_offensive = self.frames_offensive + 1;
            bump(&mut self.per_minute_offensive_frames, minute);
        } else {
            self.frames_defensive = self.frames_defensive + 1;
        }
        if f.moving_upfield && f.offensive {
            self.consecutive_upfield_frames = self.consecutive_upfield_frames + 1;
            if self.consecutive_upfield_frames == MOMENTUM_MIN_FRAMES {
                self.offensive_momentum_count = self.offensive_momentum_count + 1;
            }
        } else {
            self.consecutive_upfield_frames = 0;
        }
        if f.retreating {
            self.total_retreats = self.total_retreats + 1;
            if f.at_far_post {
                self.far_post_retreats = self.far_post_retreats + 1;
            }
        }
    }

    /// Counts one frame in minute `minute` in which the player chased the
    /// ball behind a teammate closer to it.
    pub fn record_chase(&mut self, minute: usize)
        requires
            old(self).has_room(),
        ensures
            final(self).frames_chasing == old(self).frames_chasing + 1,
            final(self).per_minute_chase_frames@ == old(self).per_minute_chase_frames@.insert(
                minute,
                (bucket(old(self).per_minute_chase_frames@, minute) + 1) as usize,
            ),
            *final(self) == (PlayerRotationStats {
                frames_chasing: final(self).frames_chasing,
                per_minute_chase_frames: final(self).per_minute_chase_frames,
                ..*old(self)
            }),
    {
        self.frames_chasing = self.frames_chasing + 1;
        bump(&mut self.per_minute_chase_frames, minute);
    }
}


// ---------------------------------------------------------------------------
// Per-minute breakdown
// ---------------------------------------------------------------------------

/// Whether `s` is strictly increasing.
pub open spec fn strictly_increasing(s: Seq<usize>) -> bool {
    forall|i: int, j: int| 0 <= i < j < s.len() ==> s[i] < s[j]
}

fn insert_minute(minutes: &mut Vec<usize>, m: usize)
    requires
        strictly_increasing(old(minutes)@),
    ensures
        strictly_increasing(final(minutes)@),
        forall|x: usize| final(minutes)@.contains(x) <==> (old(minutes)@.contains(x) || x == m),
{
    let ghost before = minutes@;
    let mut pos: usize = 0;
    while pos < minutes.len() && minutes[pos] < m
        invariant
            minutes@ == before,
            pos <= before.len(),
            forall|i: int| 0 <= i < pos ==> before[i] < m,
        decreases before.len() - pos,
    {
        pos = pos + 1;
    }
    if pos < minutes.len() && minutes[pos] == m {
        assert(before[pos as int] == m);
        return;
    }
    minutes.insert(pos, m);
    proof {
        assert(minutes@ == before.insert(pos as int, m));
        assert forall|x: usize| #[trigger] minutes@.contains(x) <==> (before.contains(x) || x
            == m) by {
            if minutes@.contains(x) {
                let k = choose|k: int| 0 <= k < minutes@.len() && minutes@[k] == x;
                if k < pos {
                    assert(before[k] == x);
                } else if k > pos {
                    assert(before[k - 1] == x);
                }
            }
            if before.contains(x) {
                let k = choose|k: int| 0 <= k < before.len() && before[k] == x;
                if k < pos {
                    assert(minutes@[k] == x);
                } else {
                    assert(minutes@[k + 1] == x);
                }
            }
            if x == m {
                assert(minutes@[pos as int] == m);
            }
        }
        assert forall|i: int, j: int| 0 <= i < j < minutes@.len() implies minutes@[i]
            < minutes@[j] by {
            if pos < before.len() {
                assert(before[pos as int] > m);
            }
            if j < pos {
            } else if j == pos {
                assert(minutes@[i] == before[i]);
            } else if i < pos {
                assert(minutes@[j] == before[j - 1]);
                if i < pos {
                    assert(before[i] < m);
                }
            } else if i == pos {
                assert(minutes@[j] == before[j - 1]);
                assert(before[pos as int] <= before[j - 1]);
            } else {
                assert(minutes@[i] == before[i - 1]);
                assert(minutes@[j] == before[j - 1]);
            }
        }
    }
}

/// The minutes named in any of `lists`, each once, in increasing order.
pub fn merge_minutes(lists: &Vec<Vec<usize>>) -> (minutes: Vec<usize>)
    ensures
        strictly_increasing(minutes@),
        forall|x: usize|
            minutes@.contains(x) <==> exists|i: int|
                0 <= i < lists@.len() && (#[trigger] lists@[i])@.contains(x),
{
    let mut minutes: Vec<usize> = Vec::new();
    for i in 0..lists.len()
        invariant
            strictly_increasing(minutes@),
            forall|x: usize|
                minutes@.contains(x) <==> exists|k: int|
                    0 <= k < i && (#[trigger] lists@[k])@.contains(x),
    {
        let list = &lists[i];
        let ghost at_start = minutes@;
        assert(list@.subrange(0, 0) =~= Seq::<usize>::empty());
        for j in 0..list.len()
            invariant
                strictly_increasing(minutes@),
                list@ == lists@[i as int]@,
                forall|x: usize|
                    #[trigger] minutes@.contains(x) <==> (at_start.contains(x) || list@.subrange(
                        0,
                        j as int,
                    ).contains(x)),
        {
            let ghost prev = minutes@;
            insert_minute(&mut minutes, list[j]);
            proof {
                let sub = list@.subrange(0, j as int);
                let next = list@.subrange(0, j + 1);
                assert(next =~= sub.push(list@[j as int]));
                assert forall|x: usize| #[trigger] minutes@.contains(x) <==> (at_start.contains(x)
                    || next.contains(x)) by {
                    if sub.contains(x) {
                        let l = choose|l: int| 0 <= l < sub.len() && sub[l] == x;
                        assert(next[l] == x);
                    }
                    if next.contains(x) {
                        let l = choose|l: int| 0 <= l < next.len() && next[l] == x;
                        if l < j {
                            assert(sub[l] == x);
                        }
                    }
                    if x == list@[j as int] {
                        assert(next[j as int] == x);
                    }
                    assert(prev.contains(x) <==> (at_start.contains(x) || sub.contains(x)));
                }
            }
        }
        proof {
            assert(list@.subrange(0, list@.len() as int) =~= list@);
            assert forall|x: usize| minutes@.contains(x) <==> exists|k: int|
                0 <= k < i + 1 && (#[trigger] lists@[k])@.contains(x) by {
                assert(minutes@.contains(x) <==> (at_start.contains(x) || list@.contains(x)));
                if list@.contains(x) {
                    assert(lists@[i as int]@.contains(x));
                }
                if at_start.contains(x) {
                    let k = choose|k: int| 0 <= k < i && (#[trigger] lists@[k])@.contains(x);
                    assert(lists@[k]@.contains(x));
                }
                if exists|k: int| 0 <= k < i + 1 && (#[trigger] lists@[k])@.contains(x) {
                    let k = choose|k: int| 0 <= k < i + 1 && (#[trigger] lists@[k])@.contains(x);
                    if k < i {
                        assert(at_start.contains(x));
                    }
                }
            }
        }
    }
    minutes
}

/// Which per-minute tally of a player.
#[derive(Debug, Clone, Copy, PartialEq, Eq)]
pub enum MinuteTally {
    Total,
    Offensive,
    Chase,
}

/// The per-minute tally `kind` of player `p`.
pub open spec fn tally_of(p: PlayerRotationStats, kind: MinuteTally) -> Map<usize, usize> {
    match kind {
        MinuteTally::Total => p.per_minute_total_frames@,
        MinuteTally::Offensive => p.per_minute_offensive_frames@,
        MinuteTally::Chase => p.per_minute_chase_frames@,
    }
}

/// The sum, over the first `n` players that belong to `team`, of their
/// count in minute `minute` of tally `kind`.
pub open spec fn team_minute_sum(
    players: Seq<PlayerRotationStats>,
    team: usize,
    minute: usize,
    kind: MinuteTally,
    n: nat,
) -> int
    decreases n,
{
    if n == 0 || n > players.len() {
        0
    } else {
        team_minute_sum(players, team, minute, kind, (n - 1) as nat) + (if players[n - 1].team
            == team {
            bucket(tally_of(players[n - 1], kind), minute) as int
        } else {
            0
        })
    }
}

fn bucket_exec(tally: &HashMap<usize, usize>, k: usize) -> (c: usize)
    ensures
        c == bucket(tally@, k),
{
    broadcast use vstd::std_specs::hash::group_hash_axioms;

    match tally.get(&k) {
        Some(c) => *c,
        None => 0,
    }
}

/// The frames team `team` spent in minute `minute`, all of them, in the
/// offensive half, and chasing, summed over its players.
pub fn minute_totals(players: &Vec<PlayerRotationStats>, team: usize, minute: usize) -> (totals: (
    u128,
    u128,
    u128,
))
    ensures
        totals.0 == team_minute_sum(players@, team, minute, MinuteTally::Total, players@.len()),
        totals.1 == team_minute_sum(
            players@,
            team,
            minute,
            MinuteTally::Offensive,
            players@.len(),
        ),
        totals.2 == team_minute_sum(players@, team, minute, MinuteTally::Chase, players@.len()),
{
    let mut total: u128 = 0;
    let mut offensive: u128 = 0;
    let mut chase: u128 = 0;
    for i in 0..players.len()
        invariant
            total == team_minute_sum(players@, team, minute, MinuteTally::Total, i as nat),
            offensive == team_minute_sum(players@, team, minute, MinuteTally::Offensive, i as nat),
            chase == team_minute_sum(players@, team, minute, MinuteTally::Chase, i as nat),
            total <= i * 0x1_0000_0000_0000_0000,
            offensive <= i * 0x1_0000_0000_0000_0000,
            chase <= i * 0x1_0000_0000_0000_0000,
            players@.len() <= usize::MAX,
    {
        let p = &players[i];
        if p.team == team {
            let t = bucket_exec(&p.per_minute_total_frames, minute);
            let o = bucket_exec(&p.per_minute_offensive_frames, minute);
            let c = bucket_exec(&p.per_minute_chase_frames, minute);
            assert((i + 1) * 0x1_0000_0000_0000_0000 <= 0x1_0000_0000_0000_0000
                * 0x1_0000_0000_0000_0000) by (nonlinear_arith)
                requires
                    i + 1 <= 0x1_0000_0000_0000_0000,
            ;
            total = total + t as u128;
            offensive = offensive + o as u128;
            chase = chase + c as u128;
        }
    }
    (total, offensive, chase)
}

} // verus!
