//! The decisions of the authentication engine: locking users out after
//! failed attempts, tallying what each camera saw into a verdict, choosing
//! how enrolment captures, and where a labelled embedding goes.
use vstd::prelude::*;

use crate::config::{AuthPolicy, CameraDefinition, Configuration};
use crate::constants::CAMERA_AVERAGE_FRAMES;
use crate::utils::{is_valid_username, valid_username};
use crate::text::{
    chars_eq, chars_eq_str, chars_lt, chars_of, decimal, lemma_seq_lt_total, lemma_seq_lt_transitive, push_decimal,
    push_str, seq_lt, string_from_chars, string_from_str,
};

verus! {

/// What is remembered of one user's attempts: the failures since the last
/// success, and until when (in milliseconds of a monotonic clock) the user is
/// locked out.
#[derive(Debug, Clone, Copy, PartialEq, Eq, Structural)]
pub struct LockoutState {
    pub failed_attempts: i32,
    pub lockout_until_ms: Option<u64>,
}

/// The state of a user whose attempts were never recorded.
pub open spec fn fresh_state() -> LockoutState {
    LockoutState { failed_attempts: 0, lockout_until_ms: None }
}

/// Whether a user in state `st` is locked out at `now`, with `limit` the
/// configured number of attempts (none when it is not positive).
pub open spec fn state_locked(st: Option<LockoutState>, limit: i32, now: u64) -> bool {
    limit > 0 && match st {
        Some(s) => match s.lockout_until_ms {
            Some(until) => now < until,
            None => false,
        },
        None => false,
    }
}

/// The state after an attempt: a success clears it; a failure counts one
/// more (the count stops at `i32::MAX`, past every limit) and, once the count
/// reaches `limit`, locks the user out for `duration_sec` seconds from `now`.
pub open spec fn after_attempt(old: Option<LockoutState>, limit: i32, duration_sec: i32, success: bool, now: u64) -> LockoutState {
    if success {
        fresh_state()
    } else {
        let prev = match old {
            Some(s) => s,
            None => fresh_state(),
        };
        let f: i32 = if prev.failed_attempts == i32::MAX {
            i32::MAX
        } else {
            (prev.failed_attempts + 1) as i32
        };
        LockoutState {
            failed_attempts: f,
            lockout_until_ms: if f >= limit {
                Some((now + duration_sec * 1000) as u64)
            } else {
                prev.lockout_until_ms
            },
        }
    }
}

/// The map of user states held by parallel lists; a later entry for a user
/// would win over an earlier one.
pub open spec fn states_map(users: Seq<Seq<char>>, states: Seq<LockoutState>) -> Map<Seq<char>, LockoutState>
    decreases users.len(),
{
    if users.len() == 0 || states.len() == 0 {
        Map::empty()
    } else {
        states_map(users.drop_last(), states.drop_last()).insert(users.last(), states.last())
    }
}

proof fn lemma_states_map_last(users: Seq<Seq<char>>, states: Seq<LockoutState>, i: int)
    requires
        users.len() == states.len(),
        0 <= i < users.len(),
        forall|j: int| i < j < users.len() ==> users[j] != users[i],
    ensures
        states_map(users, states).contains_key(users[i]),
        states_map(users, states)[users[i]] == states[i],
    decreases users.len(),
{
    if i < users.len() - 1 {
        lemma_states_map_last(users.drop_last(), states.drop_last(), i);
    }
}

proof fn lemma_states_map_absent(users: Seq<Seq<char>>, states: Seq<LockoutState>, u: Seq<char>)
    requires
        users.len() == states.len(),
        forall|j: int| 0 <= j < users.len() ==> users[j] != u,
    ensures
        !states_map(users, states).contains_key(u),
    decreases users.len(),
{
    if users.len() > 0 {
        lemma_states_map_absent(users.drop_last(), states.drop_last(), u);
    }
}

proof fn lemma_states_map_update(users: Seq<Seq<char>>, states: Seq<LockoutState>, i: int, st: LockoutState)
    requires
        users.len() == states.len(),
        0 <= i < users.len(),
        forall|j: int| i < j < users.len() ==> users[j] != users[i],
    ensures
        states_map(users, states.update(i, st)) == states_map(users, states).insert(users[i], st),
    decreases users.len(),
{
    let n = users.len();
    if i == n - 1 {
        assert(states.update(i, st).drop_last() =~= states.drop_last());
        assert(states_map(users, states.update(i, st)) =~= states_map(users, states).insert(users[i], st));
    } else {
        assert(states.update(i, st).drop_last() =~= states.drop_last().update(i, st));
        lemma_states_map_update(users.drop_last(), states.drop_last(), i, st);
        assert(states_map(users, states.update(i, st)) =~= states_map(users, states).insert(users[i], st));
    }
}

/// Failed attempts and lockouts, per user.
#[derive(Debug)]
pub struct LockoutTracker {
    entries: Vec<(String, LockoutState)>,
}

pub open spec fn entry_users(e: Seq<(String, LockoutState)>) -> Seq<Seq<char>> {
    Seq::new(e.len(), |i: int| e[i].0@)
}

pub open spec fn entry_states(e: Seq<(String, LockoutState)>) -> Seq<LockoutState> {
    Seq::new(e.len(), |i: int| e[i].1)
}

impl View for LockoutTracker {
    type V = Map<Seq<char>, LockoutState>;

    closed spec fn view(&self) -> Map<Seq<char>, LockoutState> {
        states_map(entry_users(self.entries@), entry_states(self.entries@))
    }
}

impl LockoutTracker {
    /// A tracker that has recorded nothing.
    pub fn new() -> (r: Self)
        ensures
            r@ == Map::<Seq<char>, LockoutState>::empty(),
    {
        LockoutTracker { entries: Vec::new() }
    }

    /// The index of the last entry for `user`.
    fn find(&self, user: &str) -> (r: Option<usize>)
        ensures
            match r {
                Some(i) => {
                    &&& i < self.entries@.len()
                    &&& entry_users(self.entries@)[i as int] == user@
                    &&& forall|j: int| i < j < self.entries@.len() ==> entry_users(self.entries@)[j] != user@
                },
                None => forall|j: int| 0 <= j < self.entries@.len() ==> entry_users(self.entries@)[j] != user@,
            },
    {
        let key = chars_of(user);
        let mut i: usize = self.entries.len();
        while i > 0
            invariant
                i <= self.entries@.len(),
                key@ == user@,
                forall|j: int| i <= j < self.entries@.len() ==> entry_users(self.entries@)[j] != user@,
            decreases i,
        {
            i = i - 1;
            if chars_eq_str(key.as_slice(), self.entries[i].0.as_str()) {
                return Some(i);
            }
        }
        None
    }

    /// The state recorded for `user`, if any.
    pub fn get(&self, user: &str) -> (r: Option<LockoutState>)
        ensures
            r == (if self@.contains_key(user@) {
                Some(self@[user@])
            } else {
                None::<LockoutState>
            }),
    {
        match self.find(user) {
            Some(i) => {
                proof {
                    lemma_states_map_last(entry_users(self.entries@), entry_states(self.entries@), i as int);
                }
                Some(self.entries[i].1)
            },
            None => {
                proof {
                    lemma_states_map_absent(entry_users(self.entries@), entry_states(self.entries@), user@);
                }
                None
            },
        }
    }

    fn set(&mut self, user: &str, st: LockoutState)
        ensures
            final(self)@ == old(self)@.insert(user@, st),
    {
        let ghost old_users = entry_users(self.entries@);
        let ghost old_states = entry_states(self.entries@);
        match self.find(user) {
            Some(i) => {
                proof {
                    lemma_states_map_update(old_users, old_states, i as int, st);
                }
                self.entries.set(i, (string_from_str(user), st));
                assert(entry_users(self.entries@) =~= old_users);
                assert(entry_states(self.entries@) =~= old_states.update(i as int, st));
            },
            None => {
                self.entries.push((string_from_str(user), st));
                assert(entry_users(self.entries@).drop_last() =~= old_users);
                assert(entry_states(self.entries@).drop_last() =~= old_states);
            },
        }
    }

    /// Whether `user` is locked out at `now`, `limit` being the configured
    /// number of attempts.
    pub fn is_user_locked_out(&self, limit: i32, user: &str, now_ms: u64) -> (r: bool)
        ensures
            r == state_locked(
                if self@.contains_key(user@) {
                    Some(self@[user@])
                } else {
                    None
                },
                limit,
                now_ms,
            ),
    {
        if limit <= 0 {
            return false;
        }
        match self.get(user) {
            Some(st) => match st.lockout_until_ms {
                Some(until) => now_ms < until,
                None => false,
            },
            None => false,
        }
    }

    /// Records an attempt of `user` at `now`. Nothing is recorded when
    /// `limit` is not positive. Returns whether the user is now locked out
    /// by this attempt.
    pub fn record_auth_attempt(&mut self, limit: i32, duration_sec: i32, user: &str, success: bool, now_ms: u64) -> (locked: bool)
        requires
            limit <= 0 || success || after_attempt(
                if old(self)@.contains_key(user@) {
                    Some(old(self)@[user@])
                } else {
                    None
                },
                limit,
                duration_sec,
                false,
                now_ms,
            ).failed_attempts < limit || (duration_sec >= 0 && now_ms + duration_sec * 1000 <= u64::MAX),
        ensures
            limit <= 0 ==> final(self)@ == old(self)@ && !locked,
            limit > 0 ==> final(self)@ == old(self)@.insert(
                user@,
                after_attempt(
                    if old(self)@.contains_key(user@) {
                        Some(old(self)@[user@])
                    } else {
                        None
                    },
                    limit,
                    duration_sec,
                    success,
                    now_ms,
                ),
            ),
            locked == (limit > 0 && !success && after_attempt(
                if old(self)@.contains_key(user@) {
                    Some(old(self)@[user@])
                } else {
                    None
                },
                limit,
                duration_sec,
                success,
                now_ms,
            ).failed_attempts >= limit),
    {
        if limit <= 0 {
            return false;
        }
        let prev = match self.get(user) {
            Some(s) => s,
            None => LockoutState { failed_attempts: 0, lockout_until_ms: None },
        };
        let next = if success {
            LockoutState { failed_attempts: 0, lockout_until_ms: None }
        } else {
            let f: i32 = if prev.failed_attempts == i32::MAX {
                i32::MAX
            } else {
                prev.failed_attempts + 1
            };
            if f >= limit {
                let until: u64 = now_ms + (duration_sec as u64) * 1000;
                LockoutState { failed_attempts: f, lockout_until_ms: Some(until) }
            } else {
                LockoutState { failed_attempts: f, lockout_until_ms: prev.lockout_until_ms }
            }
        };
        self.set(user, next);
        !success && next.failed_attempts >= limit
    }
}

/// The state after `k` failed attempts at `now`, starting from `st`.
pub open spec fn repeated_failures(st: LockoutState, k: nat, limit: i32, duration_sec: i32, now: u64) -> LockoutState
    decreases k,
{
    if k == 0 {
        st
    } else {
        after_attempt(Some(repeated_failures(st, (k - 1) as nat, limit, duration_sec, now)), limit, duration_sec, false, now)
    }
}

/// A user is locked out exactly when `limit` failures have been counted:
/// after `k` failures from a clean state the count is `k`, and the user is
/// locked out at that moment if and only if `k` reaches the limit.
pub proof fn lemma_lockout_after_n_failures(k: nat, limit: i32, duration_sec: i32, now: u64)
    requires
        0 < limit,
        k <= i32::MAX,
        duration_sec > 0,
        now + duration_sec * 1000 <= u64::MAX,
    ensures
        repeated_failures(fresh_state(), k, limit, duration_sec, now).failed_attempts == k,
        k < limit ==> repeated_failures(fresh_state(), k, limit, duration_sec, now).lockout_until_ms is None,
        k >= limit ==> repeated_failures(fresh_state(), k, limit, duration_sec, now).lockout_until_ms == Some(
            (now + duration_sec * 1000) as u64,
        ),
        state_locked(Some(repeated_failures(fresh_state(), k, limit, duration_sec, now)), limit, now) <==> k >= limit,
    decreases k,
{
    if k > 0 {
        lemma_lockout_after_n_failures((k - 1) as nat, limit, duration_sec, now);
    }
}

/// A successful attempt clears the count, and the user is not locked out
/// afterwards, whatever was recorded before.
pub proof fn lemma_success_resets(old: Option<LockoutState>, limit: i32, duration_sec: i32, now: u64, later: u64)
    ensures
        after_attempt(old, limit, duration_sec, true, now) == fresh_state(),
        !state_locked(Some(after_attempt(old, limit, duration_sec, true, now)), limit, later),
{
}

/// With a limit that is not positive, nobody is ever locked out.
pub proof fn lemma_lockout_disabled(st: Option<LockoutState>, limit: i32, now: u64)
    requires
        limit <= 0,
    ensures
        !state_locked(st, limit, now),
{
}

/// A lockout ends once its duration has passed.
pub proof fn lemma_lockout_expires(old: Option<LockoutState>, limit: i32, duration_sec: i32, now: u64, later: u64)
    requires
        0 < limit,
        duration_sec >= 0,
        now + duration_sec * 1000 <= u64::MAX,
        after_attempt(old, limit, duration_sec, false, now).failed_attempts >= limit,
        later >= now + duration_sec * 1000,
    ensures
        !state_locked(Some(after_attempt(old, limit, duration_sec, false, now)), limit, later),
{
}

/// Recording an attempt of one user leaves what is recorded for every other
/// user as it was.
pub proof fn lemma_lockout_per_user(
    m: Map<Seq<char>, LockoutState>,
    user: Seq<char>,
    st: LockoutState,
    other: Seq<char>,
)
    requires
        other != user,
    ensures
        m.insert(user, st).contains_key(other) == m.contains_key(other),
        m.contains_key(other) ==> m.insert(user, st)[other] == m[other],
{
}

/// What one camera contributed to a verification.
#[derive(Debug, Clone, Copy, PartialEq, Eq, Structural)]
pub enum CameraOutcome {
    /// No frame could be captured.
    CaptureFailed,
    /// The frame was darker than the camera's minimum brightness.
    TooDark,
    /// The user has no embedding for this kind of camera.
    NoEmbeddings,
    /// No face was found in the frame.
    NoFace,
    /// A face was compared with the user's embeddings; `matched` tells whether
    /// the best score reached the threshold.
    Compared { matched: bool },
}

/// The counts gathered over the cameras so far.
#[derive(Debug, Clone, Copy, PartialEq, Eq, Structural)]
pub struct VerifyTally {
    pub participants: u32,
    pub successes: u32,
    pub failures: u32,
    pub any_no_face: bool,
}

/// Why a verification stopped before asking every camera.
#[derive(Debug, Clone, Copy, PartialEq, Eq, Structural)]
pub enum AbortReason {
    /// A camera failed to capture under the policy that needs every camera.
    CaptureFailed,
    /// A mandatory camera failed to capture under the adaptive policy.
    MandatoryCaptureFailed,
    /// A mandatory camera saw too dark a frame under the adaptive policy.
    MandatoryTooDark,
}

/// What follows a camera's outcome: go on with the next camera, or stop.
#[derive(Debug, Clone, Copy, PartialEq, Eq, Structural)]
pub enum VerifyStep {
    Next(VerifyTally),
    Abort(AbortReason),
}

/// The verdict once every camera has been asked.
#[derive(Debug, Clone, Copy, PartialEq, Eq, Structural)]
pub enum VerifyVerdict {
    NoParticipants,
    Success,
    Mismatch { some_no_face: bool },
    NoFace,
    Failed,
}

pub open spec fn empty_tally() -> VerifyTally {
    VerifyTally { participants: 0, successes: 0, failures: 0, any_no_face: false }
}

/// The step that a camera's outcome leads to, under `policy`.
pub open spec fn step_of(policy: AuthPolicy, mandatory: bool, t: VerifyTally, o: CameraOutcome) -> VerifyStep {
    match o {
        CameraOutcome::CaptureFailed => if policy == AuthPolicy::StrictAll {
            VerifyStep::Abort(AbortReason::CaptureFailed)
        } else if policy == AuthPolicy::Adaptive && mandatory {
            VerifyStep::Abort(AbortReason::MandatoryCaptureFailed)
        } else {
            VerifyStep::Next(t)
        },
        CameraOutcome::TooDark => if policy == AuthPolicy::Adaptive && mandatory {
            VerifyStep::Abort(AbortReason::MandatoryTooDark)
        } else {
            VerifyStep::Next(t)
        },
        CameraOutcome::NoEmbeddings => VerifyStep::Next(
            VerifyTally { participants: (t.participants + 1) as u32, failures: (t.failures + 1) as u32, ..t },
        ),
        CameraOutcome::NoFace => VerifyStep::Next(
            VerifyTally {
                participants: (t.participants + 1) as u32,
                failures: (t.failures + 1) as u32,
                any_no_face: true,
                ..t
            },
        ),
        CameraOutcome::Compared { matched } => if matched {
            VerifyStep::Next(
                VerifyTally { participants: (t.participants + 1) as u32, successes: (t.successes + 1) as u32, ..t },
            )
        } else {
            VerifyStep::Next(
                VerifyTally { participants: (t.participants + 1) as u32, failures: (t.failures + 1) as u32, ..t },
            )
        },
    }
}

/// Whether the counts authenticate under `policy`: every participating
/// camera matched for the strict policy, one match otherwise.
pub open spec fn tally_accepts(policy: AuthPolicy, t: VerifyTally) -> bool {
    if policy == AuthPolicy::StrictAll {
        t.failures == 0 && t.successes > 0
    } else {
        t.successes > 0
    }
}

/// The verdict of the counts; `score_positive` tells whether any face got a
/// score above zero.
pub open spec fn verdict_of(policy: AuthPolicy, t: VerifyTally, score_positive: bool) -> VerifyVerdict {
    if t.participants == 0 {
        VerifyVerdict::NoParticipants
    } else if tally_accepts(policy, t) {
        VerifyVerdict::Success
    } else if score_positive {
        VerifyVerdict::Mismatch { some_no_face: t.any_no_face }
    } else if t.any_no_face {
        VerifyVerdict::NoFace
    } else {
        VerifyVerdict::Failed
    }
}

/// The counts before any camera is asked.
pub fn new_tally() -> (t: VerifyTally)
    ensures
        t == empty_tally(),
{
    VerifyTally { participants: 0, successes: 0, failures: 0, any_no_face: false }
}

/// Takes one camera's outcome into the counts, or stops the verification.
pub fn verify_step(policy: AuthPolicy, mandatory: bool, t: VerifyTally, o: CameraOutcome) -> (r: VerifyStep)
    requires
        t.participants < u32::MAX,
        t.successes < u32::MAX,
        t.failures < u32::MAX,
    ensures
        r == step_of(policy, mandatory, t, o),
{
    match o {
        CameraOutcome::CaptureFailed => {
            if policy == AuthPolicy::StrictAll {
                VerifyStep::Abort(AbortReason::CaptureFailed)
            } else if policy == AuthPolicy::Adaptive && mandatory {
                VerifyStep::Abort(AbortReason::MandatoryCaptureFailed)
            } else {
                VerifyStep::Next(t)
            }
        },
        CameraOutcome::TooDark => {
            if policy == AuthPolicy::Adaptive && mandatory {
                VerifyStep::Abort(AbortReason::MandatoryTooDark)
            } else {
                VerifyStep::Next(t)
            }
        },
        CameraOutcome::NoEmbeddings => VerifyStep::Next(
            VerifyTally { participants: t.participants + 1, failures: t.failures + 1, ..t },
        ),
        CameraOutcome::NoFace => VerifyStep::Next(
            VerifyTally {
                participants: t.participants + 1,
                failures: t.failures + 1,
                any_no_face: true,
                ..t
            },
        ),
        CameraOutcome::Compared { matched } => {
            if matched {
                VerifyStep::Next(VerifyTally { participants: t.participants + 1, successes: t.successes + 1, ..t })
            } else {
                VerifyStep::Next(VerifyTally { participants: t.participants + 1, failures: t.failures + 1, ..t })
            }
        },
    }
}

/// The verdict once every camera has been asked.
pub fn verify_verdict(policy: AuthPolicy, t: VerifyTally, score_positive: bool) -> (v: VerifyVerdict)
    ensures
        v == verdict_of(policy, t, score_positive),
{
    let accepts = if policy == AuthPolicy::StrictAll {
        t.failures == 0 && t.successes > 0
    } else {
        t.successes > 0
    };
    if t.participants == 0 {
        VerifyVerdict::NoParticipants
    } else if accepts {
        VerifyVerdict::Success
    } else if score_positive {
        VerifyVerdict::Mismatch { some_no_face: t.any_no_face }
    } else if t.any_no_face {
        VerifyVerdict::NoFace
    } else {
        VerifyVerdict::Failed
    }
}

/// Whether the attempt counts for lockout: every verdict but the one where
/// no camera took part.
pub fn verdict_counts_as_attempt(v: VerifyVerdict) -> (r: bool)
    ensures
        r == (v != VerifyVerdict::NoParticipants),
{
    match v {
        VerifyVerdict::NoParticipants => false,
        _ => true,
    }
}

/// Why a verification is refused before any camera is used: the user name
/// is not a valid one, or the user is locked out (`locked`); `None` when it
/// goes on.
pub fn refusal_reason(username: &str, locked: bool) -> (r: Option<&'static str>)
    ensures
        match r {
            Some(t) => if !valid_username(username@) {
                t@ == "Invalid username"@
            } else {
                locked && t@ == "User locked out"@
            },
            None => valid_username(username@) && !locked,
        },
{
    if !is_valid_username(username) {
        Some("Invalid username")
    } else if locked {
        Some("User locked out")
    } else {
        None
    }
}

/// The reason reported with a verdict; `score` is the best score as text.
pub fn verdict_reason(v: VerifyVerdict, score: &str) -> (r: String)
    ensures
        r@ == match v {
            VerifyVerdict::NoParticipants => "No cameras participated"@,
            VerifyVerdict::Success => Seq::<char>::empty(),
            VerifyVerdict::Mismatch { some_no_face } => "Face mismatch (score: "@ + score@ + ")"@ + if some_no_face {
                " (some cameras failed detection)"@
            } else {
                Seq::<char>::empty()
            },
            VerifyVerdict::NoFace => "No face detected"@,
            VerifyVerdict::Failed => "Authentication failed"@,
        },
{
    match v {
        VerifyVerdict::NoParticipants => string_from_str("No cameras participated"),
        VerifyVerdict::Success => String::new(),
        VerifyVerdict::Mismatch { some_no_face } => {
            let mut r = string_from_str("Face mismatch (score: ");
            push_str(&mut r, score);
            push_str(&mut r, ")");
            if some_no_face {
                push_str(&mut r, " (some cameras failed detection)");
            }
            proof {
                reveal_strlit("");
            }
            r
        },
        VerifyVerdict::NoFace => string_from_str("No face detected"),
        VerifyVerdict::Failed => string_from_str("Authentication failed"),
    }
}

/// The reason reported when a verification stops at camera `camera_id`.
pub fn abort_reason_text(a: AbortReason, camera_id: &str) -> (r: String)
    ensures
        r@ == match a {
            AbortReason::CaptureFailed => "Camera "@ + camera_id@ + " failed to capture"@,
            AbortReason::MandatoryCaptureFailed => "Mandatory Camera "@ + camera_id@ + " failed"@,
            AbortReason::MandatoryTooDark => "Mandatory Camera "@ + camera_id@ + " too dark"@,
        },
{
    let (head, tail) = match a {
        AbortReason::CaptureFailed => ("Camera ", " failed to capture"),
        AbortReason::MandatoryCaptureFailed => ("Mandatory Camera ", " failed"),
        AbortReason::MandatoryTooDark => ("Mandatory Camera ", " too dark"),
    };
    let mut r = string_from_str(head);
    push_str(&mut r, camera_id);
    push_str(&mut r, tail);
    r
}

/// The step reached after the cameras' outcomes, in order; each camera is
/// given with whether it is mandatory.
pub open spec fn run_steps(policy: AuthPolicy, cams: Seq<(bool, CameraOutcome)>) -> VerifyStep
    decreases cams.len(),
{
    if cams.len() == 0 {
        VerifyStep::Next(empty_tally())
    } else {
        match run_steps(policy, cams.drop_last()) {
            VerifyStep::Next(t) => step_of(policy, cams.last().0, t, cams.last().1),
            VerifyStep::Abort(a) => VerifyStep::Abort(a),
        }
    }
}

pub open spec fn is_match(o: CameraOutcome) -> bool {
    o == CameraOutcome::Compared { matched: true }
}

pub open spec fn is_failing(o: CameraOutcome) -> bool {
    o == CameraOutcome::NoEmbeddings || o == CameraOutcome::NoFace || o == CameraOutcome::Compared { matched: false }
}

pub open spec fn count_matches(cams: Seq<(bool, CameraOutcome)>) -> nat
    decreases cams.len(),
{
    if cams.len() == 0 {
        0
    } else {
        count_matches(cams.drop_last()) + if is_match(cams.last().1) {
            1nat
        } else {
            0nat
        }
    }
}

pub open spec fn count_failing(cams: Seq<(bool, CameraOutcome)>) -> nat
    decreases cams.len(),
{
    if cams.len() == 0 {
        0
    } else {
        count_failing(cams.drop_last()) + if is_failing(cams.last().1) {
            1nat
        } else {
            0nat
        }
    }
}

proof fn lemma_counts(cams: Seq<(bool, CameraOutcome)>)
    ensures
        count_matches(cams) <= cams.len(),
        count_failing(cams) <= cams.len(),
        count_matches(cams) > 0 <==> exists|i: int| 0 <= i < cams.len() && is_match(#[trigger] cams[i].1),
        count_failing(cams) == 0 <==> forall|i: int| 0 <= i < cams.len() ==> !is_failing(#[trigger] cams[i].1),
    decreases cams.len(),
{
    if cams.len() > 0 {
        let init = cams.drop_last();
        lemma_counts(init);
        assert forall|i: int| 0 <= i < init.len() implies init[i] == cams[i] by {}
        if count_matches(cams) > 0 && !is_match(cams.last().1) {
            let i = choose|i: int| 0 <= i < init.len() && is_match(#[trigger] init[i].1);
            assert(is_match(cams[i].1));
        }
        if exists|i: int| 0 <= i < cams.len() && is_match(#[trigger] cams[i].1) {
            let i = choose|i: int| 0 <= i < cams.len() && is_match(#[trigger] cams[i].1);
            if i < init.len() {
                assert(is_match(init[i].1));
            }
        }
        if count_failing(cams) != 0 && !is_failing(cams.last().1) {
            let i = choose|i: int| 0 <= i < init.len() && is_failing(#[trigger] init[i].1);
            assert(is_failing(cams[i].1));
        }
        if count_failing(cams) == 0 {
            assert forall|i: int| 0 <= i < cams.len() implies !is_failing(#[trigger] cams[i].1) by {
                if i < init.len() {
                    assert(!is_failing(init[i].1));
                }
            }
        }
    }
}

pub open spec fn has_capture_failure(cams: Seq<(bool, CameraOutcome)>) -> bool {
    exists|i: int| 0 <= i < cams.len() && #[trigger] cams[i].1 == CameraOutcome::CaptureFailed
}

proof fn lemma_strict_run(cams: Seq<(bool, CameraOutcome)>)
    requires
        cams.len() < u32::MAX,
    ensures
        has_capture_failure(cams) ==> run_steps(AuthPolicy::StrictAll, cams) == VerifyStep::Abort(
            AbortReason::CaptureFailed,
        ),
        !has_capture_failure(cams) ==> (run_steps(AuthPolicy::StrictAll, cams) matches VerifyStep::Next(t)
            && t.successes == count_matches(cams) && t.failures == count_failing(cams)),
    decreases cams.len(),
{
    if cams.len() > 0 {
        let init = cams.drop_last();
        lemma_strict_run(init);
        lemma_counts(init);
        assert forall|i: int| 0 <= i < init.len() implies init[i] == cams[i] by {}
        if has_capture_failure(init) {
            let i = choose|i: int| 0 <= i < init.len() && #[trigger] init[i].1 == CameraOutcome::CaptureFailed;
            assert(cams[i].1 == CameraOutcome::CaptureFailed);
        }
        if has_capture_failure(cams) && !has_capture_failure(init) {
            let i = choose|i: int| 0 <= i < cams.len() && #[trigger] cams[i].1 == CameraOutcome::CaptureFailed;
            if i < init.len() {
                assert(init[i].1 == CameraOutcome::CaptureFailed);
            }
        }
        if !has_capture_failure(cams) {
            assert(cams[cams.len() - 1].1 != CameraOutcome::CaptureFailed);
            assert forall|i: int| 0 <= i < init.len() implies #[trigger] init[i].1 != CameraOutcome::CaptureFailed by {
                assert(cams[i].1 != CameraOutcome::CaptureFailed);
            }
        }
    }
}

/// Under the strict policy, a verification in which every camera was asked
/// authenticates exactly when no camera failed to capture, every camera
/// that saw a bright enough frame matched, and at least one camera matched.
pub proof fn lemma_strict_policy_needs_every_camera(cams: Seq<(bool, CameraOutcome)>)
    requires
        cams.len() < u32::MAX,
    ensures
        (run_steps(AuthPolicy::StrictAll, cams) matches VerifyStep::Next(t) && tally_accepts(AuthPolicy::StrictAll, t))
            <==> ((forall|i: int|
            0 <= i < cams.len() ==> #[trigger] cams[i].1 == CameraOutcome::TooDark || is_match(cams[i].1)) && exists|i: int|
            0 <= i < cams.len() && is_match(#[trigger] cams[i].1)),
{
    lemma_strict_run(cams);
    lemma_counts(cams);
    if forall|i: int| 0 <= i < cams.len() ==> #[trigger] cams[i].1 == CameraOutcome::TooDark || is_match(cams[i].1) {
        assert forall|i: int| 0 <= i < cams.len() implies !is_failing(#[trigger] cams[i].1) by {}
        assert(!has_capture_failure(cams)) by {
            if has_capture_failure(cams) {
                let i = choose|i: int| 0 <= i < cams.len() && #[trigger] cams[i].1 == CameraOutcome::CaptureFailed;
                assert(cams[i].1 == CameraOutcome::TooDark || is_match(cams[i].1));
            }
        }
    }
    if run_steps(AuthPolicy::StrictAll, cams) matches VerifyStep::Next(t) && tally_accepts(AuthPolicy::StrictAll, t) {
        assert(!has_capture_failure(cams));
        assert forall|i: int| 0 <= i < cams.len() implies #[trigger] cams[i].1 == CameraOutcome::TooDark || is_match(
            cams[i].1,
        ) by {
            assert(!is_failing(cams[i].1));
            if cams[i].1 == CameraOutcome::CaptureFailed {
                assert(has_capture_failure(cams));
            }
        }
    }
}

proof fn lemma_lenient_run(cams: Seq<(bool, CameraOutcome)>)
    requires
        cams.len() < u32::MAX,
    ensures
        run_steps(AuthPolicy::LenientAny, cams) matches VerifyStep::Next(t) && t.successes == count_matches(cams),
    decreases cams.len(),
{
    if cams.len() > 0 {
        lemma_strict_run(cams.drop_last());
        lemma_lenient_run(cams.drop_last());
        lemma_counts(cams.drop_last());
    }
}

/// Under the lenient policy every camera is asked, and the verification
/// authenticates exactly when at least one camera matched.
pub proof fn lemma_lenient_policy_needs_one_match(cams: Seq<(bool, CameraOutcome)>)
    requires
        cams.len() < u32::MAX,
    ensures
        run_steps(AuthPolicy::LenientAny, cams) is Next,
        (run_steps(AuthPolicy::LenientAny, cams) matches VerifyStep::Next(t) && tally_accepts(AuthPolicy::LenientAny, t))
            <==> exists|i: int| 0 <= i < cams.len() && is_match(#[trigger] cams[i].1),
{
    lemma_lenient_run(cams);
    lemma_counts(cams);
}

proof fn lemma_adaptive_run(cams: Seq<(bool, CameraOutcome)>)
    requires
        cams.len() < u32::MAX,
    ensures
        run_steps(AuthPolicy::Adaptive, cams) matches VerifyStep::Next(t) ==> t.successes == count_matches(cams)
            && t.successes <= t.participants && t.participants <= cams.len() && t.failures <= cams.len() && forall|i: int|
            0 <= i < cams.len() && (#[trigger] cams[i]).0 ==> cams[i].1 != CameraOutcome::CaptureFailed && cams[i].1
                != CameraOutcome::TooDark,
    decreases cams.len(),
{
    if cams.len() > 0 {
        let init = cams.drop_last();
        lemma_adaptive_run(init);
        lemma_counts(init);
        assert forall|i: int| 0 <= i < init.len() implies init[i] == cams[i] by {}
    }
}

/// Under the adaptive policy, a verification that authenticates had every
/// mandatory camera deliver a frame that was bright enough, and at least one
/// camera matched.
pub proof fn lemma_adaptive_policy_needs_mandatory_cameras(cams: Seq<(bool, CameraOutcome)>)
    requires
        cams.len() < u32::MAX,
    ensures
        (run_steps(AuthPolicy::Adaptive, cams) matches VerifyStep::Next(t) && tally_accepts(AuthPolicy::Adaptive, t))
            ==> (forall|i: int|
            0 <= i < cams.len() && (#[trigger] cams[i]).0 ==> cams[i].1 != CameraOutcome::CaptureFailed && cams[i].1
                != CameraOutcome::TooDark) && exists|i: int| 0 <= i < cams.len() && is_match(#[trigger] cams[i].1),
{
    lemma_adaptive_run(cams);
    lemma_counts(cams);
}

/// The verdict authenticates exactly when some camera took part and some
/// camera matched, and, under the strict policy only, no participating
/// camera failed: the lenient and adaptive policies accept one match
/// whatever the other cameras gave.
pub proof fn lemma_verdict_success(policy: AuthPolicy, t: VerifyTally, score_positive: bool)
    ensures
        (verdict_of(policy, t, score_positive) == VerifyVerdict::Success) <==> (t.participants > 0 && t.successes > 0 && (
        policy == AuthPolicy::StrictAll ==> t.failures == 0)),
{
}

proof fn lemma_adaptive_runs_through(cams: Seq<(bool, CameraOutcome)>)
    requires
        cams.len() < u32::MAX,
        forall|i: int|
            0 <= i < cams.len() && (#[trigger] cams[i]).0 ==> cams[i].1 != CameraOutcome::CaptureFailed && cams[i].1
                != CameraOutcome::TooDark,
    ensures
        run_steps(AuthPolicy::Adaptive, cams) is Next,
    decreases cams.len(),
{
    if cams.len() > 0 {
        let init = cams.drop_last();
        assert forall|i: int| 0 <= i < init.len() && (#[trigger] init[i]).0 implies init[i].1
            != CameraOutcome::CaptureFailed && init[i].1 != CameraOutcome::TooDark by {
            assert(init[i] == cams[i]);
        }
        lemma_adaptive_runs_through(init);
        lemma_adaptive_run(init);
        lemma_counts(init);
        assert(cams.last() == cams[cams.len() - 1]);
    }
}

/// Under the adaptive policy, a verification in which every mandatory camera
/// delivered a bright enough frame and at least one camera matched
/// authenticates, whatever the optional cameras gave.
pub proof fn lemma_adaptive_policy_accepts_one_match(cams: Seq<(bool, CameraOutcome)>, score_positive: bool)
    requires
        cams.len() < u32::MAX,
        forall|i: int|
            0 <= i < cams.len() && (#[trigger] cams[i]).0 ==> cams[i].1 != CameraOutcome::CaptureFailed && cams[i].1
                != CameraOutcome::TooDark,
        exists|i: int| 0 <= i < cams.len() && is_match(#[trigger] cams[i].1),
    ensures
        run_steps(AuthPolicy::Adaptive, cams) matches VerifyStep::Next(t) && verdict_of(
            AuthPolicy::Adaptive,
            t,
            score_positive,
        ) == VerifyVerdict::Success,
{
    lemma_adaptive_runs_through(cams);
    lemma_adaptive_run(cams);
    lemma_counts(cams);
}

/// The message that ends an enrolment at camera `camera_id`, given the
/// number of faces found in its frame (`None` when it gave no frame); none
/// when exactly one face was found and the enrolment goes on.
pub open spec fn enroll_failure(camera_id: Seq<char>, faces: Option<usize>) -> Option<Seq<char>> {
    match faces {
        None => Some("Camera "@ + camera_id + " failed (empty frame)."@),
        Some(n) => if n == 1 {
            None
        } else {
            Some("Found "@ + decimal(n as nat) + " faces in "@ + camera_id + ". Expecting exactly 1."@)
        },
    }
}

/// What enrolment makes of one camera: `None` to go on with the next one,
/// else the message with which it stops before anything is written.
pub fn enroll_camera_check(camera_id: &str, faces: Option<usize>) -> (r: Option<String>)
    ensures
        match r {
            Some(m) => enroll_failure(camera_id@, faces) == Some(m@),
            None => enroll_failure(camera_id@, faces) is None,
        },
{
    match faces {
        None => {
            let mut m = string_from_str("Camera ");
            push_str(&mut m, camera_id);
            push_str(&mut m, " failed (empty frame).");
            Some(m)
        },
        Some(n) => {
            if n == 1 {
                None
            } else {
                let mut m = string_from_str("Found ");
                push_decimal(&mut m, n as u64);
                push_str(&mut m, " faces in ");
                push_str(&mut m, camera_id);
                push_str(&mut m, ". Expecting exactly 1.");
                Some(m)
            }
        },
    }
}

/// How a camera captures the frame that is enrolled.
#[derive(Debug, Clone, Copy, PartialEq, Eq, Structural)]
pub enum CaptureMode {
    /// Exposure fusion of frames taken at several exposures.
    Hdr,
    /// The average of `frames` frames.
    Averaged { frames: usize },
    /// One frame.
    Single,
}

pub open spec fn is_on_word(s: Seq<char>) -> bool {
    s == "on"@ || s == "true"@
}

/// The enrolment capture of a camera: HDR when it is asked for (by the
/// camera, else by the general setting: `on`, `true` or `auto`) and the
/// camera takes manual exposure; else averaging when asked for; else one
/// frame. The flag tells whether a failed capture is retried with one frame.
pub open spec fn enroll_mode_of(
    def_hdr: Seq<char>,
    def_averaging: Seq<char>,
    def_frames: i32,
    cfg_hdr: Seq<char>,
    cfg_averaging: bool,
    cfg_frames: i32,
    supports_manual: bool,
) -> (CaptureMode, bool) {
    let hdr = if def_hdr.len() > 0 {
        def_hdr
    } else {
        cfg_hdr
    };
    let use_hdr = is_on_word(hdr) || hdr == "auto"@;
    let use_avg = if def_averaging.len() > 0 {
        is_on_word(def_averaging)
    } else {
        cfg_averaging
    };
    let frames: usize = if def_frames > 0 {
        def_frames as usize
    } else if cfg_frames > 0 {
        cfg_frames as usize
    } else {
        CAMERA_AVERAGE_FRAMES
    };
    let mode = if use_hdr && supports_manual {
        CaptureMode::Hdr
    } else if use_avg {
        CaptureMode::Averaged { frames }
    } else {
        CaptureMode::Single
    };
    (mode, use_hdr || use_avg)
}

/// How `def` captures for enrolment under `config`.
pub fn enroll_capture_mode(def: &CameraDefinition, config: &Configuration, supports_manual: bool) -> (r: (CaptureMode, bool))
    ensures
        r == enroll_mode_of(
            def.enroll_hdr@,
            def.enroll_averaging@,
            def.enroll_average_frames,
            config.enroll_hdr@,
            config.enroll_averaging,
            config.enroll_average_frames,
            supports_manual,
        ),
{
    let hdr = if def.enroll_hdr.unicode_len() > 0 {
        chars_of(def.enroll_hdr.as_str())
    } else {
        chars_of(config.enroll_hdr.as_str())
    };
    let use_hdr = chars_eq_str(hdr.as_slice(), "on") || chars_eq_str(hdr.as_slice(), "true") || chars_eq_str(
        hdr.as_slice(),
        "auto",
    );
    let use_avg = if def.enroll_averaging.unicode_len() > 0 {
        let a = chars_of(def.enroll_averaging.as_str());
        chars_eq_str(a.as_slice(), "on") || chars_eq_str(a.as_slice(), "true")
    } else {
        config.enroll_averaging
    };
    let frames: usize = if def.enroll_average_frames > 0 {
        def.enroll_average_frames as usize
    } else if config.enroll_average_frames > 0 {
        config.enroll_average_frames as usize
    } else {
        CAMERA_AVERAGE_FRAMES
    };
    let mode = if use_hdr && supports_manual {
        CaptureMode::Hdr
    } else if use_avg {
        CaptureMode::Averaged { frames }
    } else {
        CaptureMode::Single
    };
    (mode, use_hdr || use_avg)
}

/// The inference provider in use: the first of the configured ones that is
/// known, else the CPU by default.
pub open spec fn active_provider(providers: Seq<Seq<char>>) -> Seq<char>
    decreases providers.len(),
{
    if providers.len() == 0 {
        "CPU (Default)"@
    } else if providers[0] == "OpenCL"@ || providers[0] == "CPU"@ {
        providers[0]
    } else {
        active_provider(providers.drop_first())
    }
}

pub fn get_active_provider(providers: &Vec<String>) -> (r: String)
    ensures
        r@ == active_provider(providers.deep_view()),
{
    let ghost pv = providers.deep_view();
    let mut i: usize = 0;
    assert(pv.subrange(0, pv.len() as int) == pv);
    while i < providers.len()
        invariant
            i <= providers.len(),
            pv == providers.deep_view(),
            active_provider(pv) == active_provider(pv.subrange(i as int, pv.len() as int)),
        decreases providers.len() - i,
    {
        assert(pv.subrange(i as int, pv.len() as int).drop_first() == pv.subrange(i + 1, pv.len() as int));
        assert(pv.subrange(i as int, pv.len() as int)[0] == pv[i as int]);
        let p = chars_of(providers[i].as_str());
        if chars_eq_str(p.as_slice(), "OpenCL") || chars_eq_str(p.as_slice(), "CPU") {
            return string_from_chars(p.as_slice());
        }
        i = i + 1;
    }
    string_from_str("CPU (Default)")
}

/// Whether loaded models are to be unloaded: a keep-alive is configured and
/// more seconds than it have passed since the last activity.
pub fn should_unload_models(keep_alive_sec: i32, models_loaded: bool, idle_sec: i32) -> (r: bool)
    ensures
        r == (keep_alive_sec > 0 && models_loaded && idle_sec > keep_alive_sec),
{
    keep_alive_sec > 0 && models_loaded && idle_sec > keep_alive_sec
}

/// Where an embedding goes in a list of labelled embeddings.
#[derive(Debug, Clone, Copy, PartialEq, Eq, Structural)]
pub enum SlotAction {
    /// It replaces (or is merged into) the entry at this index.
    Replace(usize),
    /// It is added at the end.
    Append,
    /// The list is full and holds no entry with the label.
    Full,
}

pub open spec fn label_is(l: Option<Seq<char>>, label: Seq<char>) -> bool {
    l == Some(label)
}

pub open spec fn opt_label_view(l: Option<String>) -> Option<Seq<char>> {
    match l {
        Some(s) => Some(s@),
        None => None,
    }
}

pub open spec fn labels_view(v: Seq<Option<String>>) -> Seq<Option<Seq<char>>> {
    Seq::new(v.len(), |i: int| opt_label_view(v[i]))
}

/// The first index whose label is `label` and that is `eligible`.
pub open spec fn first_with_label(labels: Seq<Option<Seq<char>>>, eligible: Seq<bool>, label: Seq<char>) -> Option<int>
    decreases labels.len(),
{
    if labels.len() == 0 || eligible.len() == 0 {
        None
    } else if label_is(labels[0], label) && eligible[0] {
        Some(0)
    } else {
        match first_with_label(labels.drop_first(), eligible.drop_first(), label) {
            Some(i) => Some(i + 1),
            None => None,
        }
    }
}

pub open spec fn all_true(n: nat) -> Seq<bool> {
    Seq::new(n, |i: int| true)
}

/// Whether a list of `len` entries is full under `max_embeddings` (no limit
/// when it is not positive).
pub open spec fn list_full(len: int, max_embeddings: i32) -> bool {
    max_embeddings > 0 && len >= max_embeddings
}

pub open spec fn shift_index(o: Option<int>, k: int) -> Option<int> {
    match o {
        Some(j) => Some(j + k),
        None => None,
    }
}

fn find_label(labels: &Vec<Option<String>>, eligible: &Vec<bool>, label: &str) -> (r: Option<usize>)
    requires
        labels@.len() == eligible@.len(),
    ensures
        match r {
            Some(i) => first_with_label(labels_view(labels@), eligible@, label@) == Some(i as int),
            None => first_with_label(labels_view(labels@), eligible@, label@) is None,
        },
{
    let ghost lv = labels_view(labels@);
    let ghost n = lv.len() as int;
    let key = chars_of(label);
    let mut i: usize = 0;
    assert(lv.subrange(0, n) == lv);
    assert(eligible@.subrange(0, n) == eligible@);
    while i < labels.len()
        invariant
            i <= labels@.len(),
            labels@.len() == eligible@.len(),
            n == labels@.len(),
            lv == labels_view(labels@),
            key@ == label@,
            first_with_label(lv, eligible@, label@) == shift_index(
                first_with_label(lv.subrange(i as int, n), eligible@.subrange(i as int, n), label@),
                i as int,
            ),
        decreases labels.len() - i,
    {
        let ghost tail_l = lv.subrange(i as int, n);
        let ghost tail_e = eligible@.subrange(i as int, n);
        assert(tail_l.drop_first() == lv.subrange(i + 1, n));
        assert(tail_e.drop_first() == eligible@.subrange(i + 1, n));
        assert(tail_l[0] == lv[i as int]);
        assert(tail_e[0] == eligible@[i as int]);
        let matches = match &labels[i] {
            Some(l) => chars_eq_str(key.as_slice(), l.as_str()),
            None => false,
        };
        if matches && eligible[i] {
            return Some(i);
        }
        i = i + 1;
    }
    assert(lv.subrange(n, n).len() == 0);
    None
}

fn trues(n: usize) -> (r: Vec<bool>)
    ensures
        r@ == all_true(n as nat),
{
    let mut v: Vec<bool> = Vec::new();
    while v.len() < n
        invariant
            v.len() <= n,
            v@ == all_true(v.len() as nat),
        decreases n - v.len(),
    {
        v.push(true);
        assert(v@ =~= all_true(v.len() as nat));
    }
    v
}

/// Where a pending embedding labelled `label` goes: over the entry with
/// that label if there is one; else at the end, unless the list is full.
pub fn set_label_slot(labels: &Vec<Option<String>>, label: &str, max_embeddings: i32) -> (r: SlotAction)
    ensures
        r == match first_with_label(labels_view(labels@), all_true(labels@.len()), label@) {
            Some(i) => SlotAction::Replace(i as usize),
            None => if list_full(labels@.len() as int, max_embeddings) {
                SlotAction::Full
            } else {
                SlotAction::Append
            },
        },
{
    let all = trues(labels.len());
    match find_label(labels, &all, label) {
        Some(i) => SlotAction::Replace(i),
        None => {
            if max_embeddings > 0 && labels.len() >= max_embeddings as usize {
                SlotAction::Full
            } else {
                SlotAction::Append
            }
        },
    }
}

/// Where a newly trained embedding goes. A new entry is added at the end
/// unless the list is full. Otherwise it is merged into the first entry
/// labelled `label` whose data is a list of numbers, else added at the end.
pub fn train_slot(labels: &Vec<Option<String>>, has_data: &Vec<bool>, label: &str, create_new: bool, max_embeddings: i32) -> (r: SlotAction)
    requires
        labels@.len() == has_data@.len(),
    ensures
        r == if create_new {
            if list_full(labels@.len() as int, max_embeddings) {
                SlotAction::Full
            } else {
                SlotAction::Append
            }
        } else {
            match first_with_label(labels_view(labels@), has_data@, label@) {
                Some(i) => SlotAction::Replace(i as usize),
                None => SlotAction::Append,
            }
        },
{
    if create_new {
        if max_embeddings > 0 && labels.len() >= max_embeddings as usize {
            SlotAction::Full
        } else {
            SlotAction::Append
        }
    } else {
        match find_label(labels, has_data, label) {
            Some(i) => SlotAction::Replace(i),
            None => SlotAction::Append,
        }
    }
}

/// The entries that remain when those labelled `label` are removed, in order.
pub open spec fn kept_entries<D>(s: Seq<(Option<String>, D)>, label: Seq<char>) -> Seq<(Option<String>, D)>
    decreases s.len(),
{
    if s.len() == 0 {
        Seq::empty()
    } else {
        let rest = kept_entries(s.drop_last(), label);
        if label_is(opt_label_view(s.last().0), label) {
            rest
        } else {
            rest.push(s.last())
        }
    }
}

proof fn lemma_kept_entries<D>(s: Seq<(Option<String>, D)>, label: Seq<char>)
    ensures
        kept_entries(s, label).len() <= s.len(),
        kept_entries(s, label).len() < s.len() <==> exists|i: int|
            0 <= i < s.len() && label_is(opt_label_view(#[trigger] s[i].0), label),
    decreases s.len(),
{
    if s.len() > 0 {
        let init = s.drop_last();
        lemma_kept_entries(init, label);
        if exists|i: int| 0 <= i < s.len() && label_is(opt_label_view(#[trigger] s[i].0), label) {
            let i = choose|i: int| 0 <= i < s.len() && label_is(opt_label_view(#[trigger] s[i].0), label);
            if i < init.len() {
                assert(init[i] == s[i]);
            }
        }
        if kept_entries(init, label).len() < init.len() {
            let i = choose|i: int| 0 <= i < init.len() && label_is(opt_label_view(#[trigger] init[i].0), label);
            assert(s[i] == init[i]);
        }
    }
}

/// Removes every entry labelled `label`; tells whether any was removed.
pub fn remove_label<D>(entries: Vec<(Option<String>, D)>, label: &str) -> (r: (Vec<(Option<String>, D)>, bool))
    ensures
        r.0@ == kept_entries(entries@, label@),
        r.1 == (exists|i: int| 0 <= i < entries@.len() && label_is(opt_label_view(#[trigger] entries@[i].0), label@)),
{
    let ghost orig = entries@;
    let key = chars_of(label);
    let mut rest = entries;
    let mut out: Vec<(Option<String>, D)> = Vec::new();
    let n = rest.len();
    let mut k: usize = 0;
    while k < n
        invariant
            k <= n,
            n == orig.len(),
            key@ == label@,
            rest@ == orig.subrange(k as int, n as int),
            out@ == kept_entries(orig.subrange(0, k as int), label@),
        decreases n - k,
    {
        let ghost before = rest@;
        let e = rest.remove(0);
        assert(e == orig[k as int]);
        assert(rest@ =~= orig.subrange(k + 1, n as int));
        assert(orig.subrange(0, k + 1).drop_last() =~= orig.subrange(0, k as int));
        assert(orig.subrange(0, k + 1).last() == e);
        let drop = match &e.0 {
            Some(l) => chars_eq_str(key.as_slice(), l.as_str()),
            None => false,
        };
        if !drop {
            out.push(e);
        }
        k = k + 1;
    }
    assert(orig.subrange(0, n as int) =~= orig);
    proof {
        lemma_kept_entries(orig, label@);
    }
    let removed = out.len() < n;
    (out, removed)
}

/// Every earlier name sorts strictly before every later one.
pub open spec fn strictly_sorted(s: Seq<Seq<char>>) -> bool {
    forall|i: int, j: int| 0 <= i < j < s.len() ==> seq_lt(#[trigger] s[i], #[trigger] s[j])
}

/// Adds `x` to a strictly sorted list of names unless it is there already.
fn insert_sorted(v: &mut Vec<String>, x: &[char])
    requires
        strictly_sorted(old(v).deep_view()),
    ensures
        strictly_sorted(final(v).deep_view()),
        forall|y: Seq<char>| final(v).deep_view().contains(y) <==> (old(v).deep_view().contains(y) || y == x@),
{
    let ghost old_v = v.deep_view();
    let mut j: usize = 0;
    while j < v.len()
        invariant
            j <= v.len(),
            v.deep_view() == old_v,
            strictly_sorted(old_v),
            forall|k: int| 0 <= k < j ==> seq_lt(#[trigger] old_v[k], x@),
        ensures
            j <= v.len(),
            v.deep_view() == old_v,
            forall|k: int| 0 <= k < j ==> seq_lt(#[trigger] old_v[k], x@),
            j < v.len() ==> !seq_lt(old_v[j as int], x@),
        decreases v.len() - j,
    {
        let c = chars_of(v[j].as_str());
        if !chars_lt(c.as_slice(), x) {
            break;
        }
        j = j + 1;
    }
    if j < v.len() {
        let c = chars_of(v[j].as_str());
        if chars_eq(c.as_slice(), x) {
            assert(old_v[j as int] == x@);
            return;
        }
    }
    proof {
        if j < old_v.len() {
            lemma_seq_lt_total(old_v[j as int], x@);
            assert(seq_lt(x@, old_v[j as int]));
            assert forall|k: int| j <= k < old_v.len() implies seq_lt(x@, #[trigger] old_v[k]) by {
                if k > j {
                    lemma_seq_lt_transitive(x@, old_v[j as int], old_v[k]);
                }
            }
        }
    }
    v.insert(j, string_from_chars(x));
    proof {
        let nv = v.deep_view();
        assert(nv =~= old_v.insert(j as int, x@));
        assert forall|a: int, b: int| 0 <= a < b < nv.len() implies seq_lt(#[trigger] nv[a], #[trigger] nv[b]) by {
            if b < j {
            } else if a < j && b == j {
            } else if a < j {
                lemma_seq_lt_transitive(nv[a], x@, nv[b]);
            } else if a == j {
            } else {
            }
        }
        assert forall|y: Seq<char>| nv.contains(y) <==> (old_v.contains(y) || y == x@) by {
            if nv.contains(y) {
                let k = choose|k: int| 0 <= k < nv.len() && nv[k] == y;
                if k < j {
                    assert(old_v[k] == y);
                } else if k > j {
                    assert(old_v[k - 1] == y);
                }
            }
            if old_v.contains(y) {
                let k = choose|k: int| 0 <= k < old_v.len() && old_v[k] == y;
                if k < j {
                    assert(nv[k] == y);
                } else {
                    assert(nv[k + 1] == y);
                }
            }
            if y == x@ {
                assert(nv[j as int] == y);
            }
        }
    }
}

/// The labels present in a list of entries.
pub open spec fn labels_set(ls: Seq<Option<Seq<char>>>) -> Set<Seq<char>>
    decreases ls.len(),
{
    if ls.len() == 0 {
        Set::empty()
    } else {
        let r = labels_set(ls.drop_last());
        match ls.last() {
            Some(x) => r.insert(x),
            None => r,
        }
    }
}

/// The name under which an embedding kept in the old single-embedding form is listed.
pub open spec fn legacy_label() -> Seq<char> {
    "default (legacy)"@
}

/// The labels of every camera's entries, with the legacy name for each
/// camera that still keeps an embedding in the old form.
pub open spec fn cameras_labels(cams: Seq<(Seq<Option<Seq<char>>>, bool)>) -> Set<Seq<char>>
    decreases cams.len(),
{
    if cams.len() == 0 {
        Set::empty()
    } else {
        let r = cameras_labels(cams.drop_last()).union(labels_set(cams.last().0));
        if cams.last().1 {
            r.insert(legacy_label())
        } else {
            r
        }
    }
}

pub open spec fn cameras_view(cams: Seq<(Vec<Option<String>>, bool)>) -> Seq<(Seq<Option<Seq<char>>>, bool)> {
    Seq::new(cams.len(), |c: int| (labels_view(cams[c].0@), cams[c].1))
}

/// The distinct labels of every camera, sorted: for each camera, the labels
/// of its entries, and whether it keeps an embedding in the old form.
pub fn collect_labels(cams: &Vec<(Vec<Option<String>>, bool)>) -> (r: Vec<String>)
    ensures
        strictly_sorted(r.deep_view()),
        forall|y: Seq<char>| r.deep_view().contains(y) <==> cameras_labels(cameras_view(cams@)).contains(y),
{
    let ghost cv = cameras_view(cams@);
    let mut out: Vec<String> = Vec::new();
    let mut c: usize = 0;
    while c < cams.len()
        invariant
            c <= cams@.len(),
            cv == cameras_view(cams@),
            strictly_sorted(out.deep_view()),
            forall|y: Seq<char>| out.deep_view().contains(y) <==> cameras_labels(cv.subrange(0, c as int)).contains(y),
        decreases cams.len() - c,
    {
        let ghost before = cameras_labels(cv.subrange(0, c as int));
        let ghost ls = cv[c as int].0;
        let labels = &cams[c].0;
        let mut i: usize = 0;
        while i < labels.len()
            invariant
                i <= labels@.len(),
                c < cams@.len(),
                labels == &cams@[c as int].0,
                ls == labels_view(labels@),
                strictly_sorted(out.deep_view()),
                forall|y: Seq<char>|
                    out.deep_view().contains(y) <==> before.union(labels_set(ls.subrange(0, i as int))).contains(y),
            decreases labels.len() - i,
        {
            assert(ls.subrange(0, i + 1).drop_last() =~= ls.subrange(0, i as int));
            assert(ls.subrange(0, i + 1).last() == ls[i as int]);
            match &labels[i] {
                Some(l) => {
                    let lc = chars_of(l.as_str());
                    insert_sorted(&mut out, lc.as_slice());
                },
                None => {},
            }
            i = i + 1;
        }
        assert(ls.subrange(0, labels@.len() as int) =~= ls);
        if cams[c].1 {
            let legacy = chars_of("default (legacy)");
            insert_sorted(&mut out, legacy.as_slice());
        }
        assert(cv.subrange(0, c + 1).drop_last() =~= cv.subrange(0, c as int));
        assert(cv.subrange(0, c + 1).last() == cv[c as int]);
        c = c + 1;
    }
    assert(cv.subrange(0, cams@.len() as int) =~= cv);
    out
}

} // verus!
