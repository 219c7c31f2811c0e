//! The daemon's decisions: what a request on the socket asks for and who may
//! ask it, what is answered, and when the proximity sensor wakes or locks
//! the screen.
use vstd::prelude::*;

use crate::config::Configuration;
use crate::constants::LINUXCAMPAM_VERSION;
use crate::ipc_protocol::{Command, Request};
use crate::logger::LogLevel;
use crate::text::{chars_eq_str, chars_of, push_str, string_from_chars, string_from_str};

verus! {

/// What the daemon does for a request.
#[derive(Debug, Clone)]
pub enum DaemonAction {
    /// Answer this text and do nothing else.
    Reply(String),
    /// Verify the user's face.
    Verify(String),
    /// Enrol the user's face.
    Enroll(String),
    /// Train the user's embeddings under a label, as a new entry or merged.
    Train { user: String, label: String, create_new: bool },
    /// Report the version.
    Version,
    /// Verify the user and report the details.
    TestUser(String),
    /// Test the cameras.
    TestHardware,
    /// Give the pending embedding of the user a label.
    SetLabel { user: String, label: String },
    /// List the labels of the user's embeddings.
    ListEmbeddings(String),
    /// Remove the user's embeddings with a label.
    RemoveEmbedding { user: String, label: String },
    /// Report the configuration.
    GetConfig,
    /// Set the log level.
    SetLogLevel(LogLevel),
    /// Report the log level.
    GetLogLevel,
}

/// The spec form of an action, with texts as character sequences.
pub ghost enum ActionView {
    Reply(Seq<char>),
    Verify(Seq<char>),
    Enroll(Seq<char>),
    Train(Seq<char>, Seq<char>, bool),
    Version,
    TestUser(Seq<char>),
    TestHardware,
    SetLabel(Seq<char>, Seq<char>),
    ListEmbeddings(Seq<char>),
    RemoveEmbedding(Seq<char>, Seq<char>),
    GetConfig,
    SetLogLevel(LogLevel),
    GetLogLevel,
}

impl DaemonAction {
    pub open spec fn view(&self) -> ActionView {
        match self {
            DaemonAction::Reply(s) => ActionView::Reply(s@),
            DaemonAction::Verify(u) => ActionView::Verify(u@),
            DaemonAction::Enroll(u) => ActionView::Enroll(u@),
            DaemonAction::Train { user, label, create_new } => ActionView::Train(user@, label@, *create_new),
            DaemonAction::Version => ActionView::Version,
            DaemonAction::TestUser(u) => ActionView::TestUser(u@),
            DaemonAction::TestHardware => ActionView::TestHardware,
            DaemonAction::SetLabel { user, label } => ActionView::SetLabel(user@, label@),
            DaemonAction::ListEmbeddings(u) => ActionView::ListEmbeddings(u@),
            DaemonAction::RemoveEmbedding { user, label } => ActionView::RemoveEmbedding(user@, label@),
            DaemonAction::GetConfig => ActionView::GetConfig,
            DaemonAction::SetLogLevel(l) => ActionView::SetLogLevel(*l),
            DaemonAction::GetLogLevel => ActionView::GetLogLevel,
        }
    }
}

pub open spec fn unknown_reply() -> Seq<char> {
    "ERROR Unknown Command"@
}

pub open spec fn denied_reply() -> Seq<char> {
    "ERROR Permission Denied"@
}

/// The user whose permission a request needs: its first argument, for the
/// commands about a user that have the arguments they need.
pub open spec fn target_of(cmd: Command, args: Seq<Seq<char>>) -> Option<Seq<char>> {
    match cmd {
        Command::AuthRequest | Command::AddUser | Command::TrainUser | Command::TestAuth | Command::TrainNew
        | Command::ListEmbeddings => if args.len() > 0 {
            Some(args[0])
        } else {
            None
        },
        Command::SetLabel | Command::RemoveEmbedding => if args.len() >= 2 {
            Some(args[0])
        } else {
            None
        },
        _ => None,
    }
}

/// Whether the caller may act for the target user: root may act for
/// anyone, others only for themselves.
pub open spec fn permitted(caller_uid: u32, target_uid: Option<u32>) -> bool {
    caller_uid == 0 || target_uid == Some(caller_uid)
}

/// The label of a training request: its second argument, else `default`.
pub open spec fn train_label(args: Seq<Seq<char>>) -> Seq<char> {
    if args.len() >= 2 {
        args[1]
    } else {
        "default"@
    }
}

/// What the daemon does for a request from `caller_uid`, with `target_uid`
/// the id of the request's target user, if that user exists, and `absent`
/// whether proximity is enforced and the sensor reports nobody.
pub open spec fn action_of(cmd: Command, args: Seq<Seq<char>>, caller_uid: u32, target_uid: Option<u32>, absent: bool) -> ActionView {
    let ok = permitted(caller_uid, target_uid);
    match cmd {
        Command::AuthRequest => if args.len() == 0 {
            ActionView::Reply(unknown_reply())
        } else if !ok {
            ActionView::Reply("AUTH_FAIL"@)
        } else if absent {
            ActionView::Reply("AUTH_FAIL: Proximity sensor reports no human present"@)
        } else {
            ActionView::Verify(args[0])
        },
        Command::AddUser => if args.len() == 0 {
            ActionView::Reply(unknown_reply())
        } else if !ok {
            ActionView::Reply(denied_reply())
        } else {
            ActionView::Enroll(args[0])
        },
        Command::TrainUser => if args.len() == 0 {
            ActionView::Reply(unknown_reply())
        } else if !ok {
            ActionView::Reply(denied_reply())
        } else {
            ActionView::Train(args[0], train_label(args), false)
        },
        Command::GetVersion => ActionView::Version,
        Command::TestAuth => if args.len() == 0 {
            ActionView::TestHardware
        } else if !ok {
            ActionView::Reply(denied_reply())
        } else {
            ActionView::TestUser(args[0])
        },
        Command::SetLabel => if args.len() < 2 {
            ActionView::Reply("ERROR Missing user or label"@)
        } else if !ok {
            ActionView::Reply(denied_reply())
        } else {
            ActionView::SetLabel(args[0], args[1])
        },
        Command::TrainNew => if args.len() == 0 {
            ActionView::Reply("ERROR Missing user"@)
        } else if !ok {
            ActionView::Reply(denied_reply())
        } else {
            ActionView::Train(args[0], train_label(args), true)
        },
        Command::ListEmbeddings => if args.len() == 0 {
            ActionView::Reply("ERROR Missing user"@)
        } else if !ok {
            ActionView::Reply(denied_reply())
        } else {
            ActionView::ListEmbeddings(args[0])
        },
        Command::RemoveEmbedding => if args.len() < 2 {
            ActionView::Reply("ERROR Missing user or label"@)
        } else if !ok {
            ActionView::Reply(denied_reply())
        } else {
            ActionView::RemoveEmbedding(args[0], args[1])
        },
        Command::GetConfig => ActionView::GetConfig,
        Command::SetLogLevel => if args.len() == 0 {
            ActionView::Reply(unknown_reply())
        } else if caller_uid != 0 {
            ActionView::Reply(denied_reply())
        } else if args[0] == "DEBUG"@ {
            ActionView::SetLogLevel(LogLevel::Debug)
        } else if args[0] == "INFO"@ {
            ActionView::SetLogLevel(LogLevel::Info)
        } else {
            ActionView::Reply("ERROR Invalid Log Level"@)
        },
        Command::GetLogLevel => ActionView::GetLogLevel,
        Command::Unknown => ActionView::Reply(unknown_reply()),
    }
}

fn copy_string(s: &String) -> (r: String)
    ensures
        r@ == s@,
{
    let c = chars_of(s.as_str());
    string_from_chars(c.as_slice())
}

/// The user whose id the daemon looks up to check a request's permission.
pub fn request_target(req: &Request) -> (r: Option<String>)
    ensures
        match r {
            Some(u) => target_of(req.cmd, req.args.deep_view()) == Some(u@),
            None => target_of(req.cmd, req.args.deep_view()) is None,
        },
{
    let n = req.args.len();
    let wanted = match req.cmd {
        Command::AuthRequest | Command::AddUser | Command::TrainUser | Command::TestAuth | Command::TrainNew
        | Command::ListEmbeddings => n > 0,
        Command::SetLabel | Command::RemoveEmbedding => n >= 2,
        _ => false,
    };
    if wanted {
        Some(copy_string(&req.args[0]))
    } else {
        None
    }
}

/// What the daemon does for `req` from `caller_uid`; `target_uid` is the id
/// of the user that `request_target` names, if that user exists; `absent`
/// tells whether proximity is enforced and the sensor reports nobody.
pub fn plan_request(req: &Request, caller_uid: u32, target_uid: Option<u32>, absent: bool) -> (r: DaemonAction)
    ensures
        r.view() == action_of(req.cmd, req.args.deep_view(), caller_uid, target_uid, absent),
{
    let ghost args = req.args.deep_view();
    let n = req.args.len();
    let ok = caller_uid == 0 || (match target_uid {
        Some(t) => t == caller_uid,
        None => false,
    });
    let unknown = "ERROR Unknown Command";
    let denied = "ERROR Permission Denied";
    match req.cmd {
        Command::AuthRequest => {
            if n == 0 {
                DaemonAction::Reply(string_from_str(unknown))
            } else if !ok {
                DaemonAction::Reply(string_from_str("AUTH_FAIL"))
            } else if absent {
                DaemonAction::Reply(string_from_str("AUTH_FAIL: Proximity sensor reports no human present"))
            } else {
                DaemonAction::Verify(copy_string(&req.args[0]))
            }
        },
        Command::AddUser => {
            if n == 0 {
                DaemonAction::Reply(string_from_str(unknown))
            } else if !ok {
                DaemonAction::Reply(string_from_str(denied))
            } else {
                DaemonAction::Enroll(copy_string(&req.args[0]))
            }
        },
        Command::TrainUser | Command::TrainNew => {
            let create_new = match req.cmd {
                Command::TrainNew => true,
                _ => false,
            };
            if n == 0 {
                if create_new {
                    DaemonAction::Reply(string_from_str("ERROR Missing user"))
                } else {
                    DaemonAction::Reply(string_from_str(unknown))
                }
            } else if !ok {
                DaemonAction::Reply(string_from_str(denied))
            } else {
                let label = if n >= 2 {
                    copy_string(&req.args[1])
                } else {
                    string_from_str("default")
                };
                DaemonAction::Train { user: copy_string(&req.args[0]), label, create_new }
            }
        },
        Command::GetVersion => DaemonAction::Version,
        Command::TestAuth => {
            if n == 0 {
                DaemonAction::TestHardware
            } else if !ok {
                DaemonAction::Reply(string_from_str(denied))
            } else {
                DaemonAction::TestUser(copy_string(&req.args[0]))
            }
        },
        Command::SetLabel | Command::RemoveEmbedding => {
            let is_set = match req.cmd {
                Command::SetLabel => true,
                _ => false,
            };
            if n < 2 {
                DaemonAction::Reply(string_from_str("ERROR Missing user or label"))
            } else if !ok {
                DaemonAction::Reply(string_from_str(denied))
            } else if is_set {
                DaemonAction::SetLabel { user: copy_string(&req.args[0]), label: copy_string(&req.args[1]) }
            } else {
                DaemonAction::RemoveEmbedding { user: copy_string(&req.args[0]), label: copy_string(&req.args[1]) }
            }
        },
        Command::ListEmbeddings => {
            if n == 0 {
                DaemonAction::Reply(string_from_str("ERROR Missing user"))
            } else if !ok {
                DaemonAction::Reply(string_from_str(denied))
            } else {
                DaemonAction::ListEmbeddings(copy_string(&req.args[0]))
            }
        },
        Command::GetConfig => DaemonAction::GetConfig,
        Command::SetLogLevel => {
            if n == 0 {
                DaemonAction::Reply(string_from_str(unknown))
            } else if caller_uid != 0 {
                DaemonAction::Reply(string_from_str(denied))
            } else {
                let lvl = chars_of(req.args[0].as_str());
                if chars_eq_str(lvl.as_slice(), "DEBUG") {
                    DaemonAction::SetLogLevel(LogLevel::Debug)
                } else if chars_eq_str(lvl.as_slice(), "INFO") {
                    DaemonAction::SetLogLevel(LogLevel::Info)
                } else {
                    DaemonAction::Reply(string_from_str("ERROR Invalid Log Level"))
                }
            }
        },
        Command::GetLogLevel => DaemonAction::GetLogLevel,
        Command::Unknown => DaemonAction::Reply(string_from_str(unknown)),
    }
}

/// The user whose data or face an action works on, if any.
pub open spec fn acted_user(a: ActionView) -> Option<Seq<char>> {
    match a {
        ActionView::Verify(u) => Some(u),
        ActionView::Enroll(u) => Some(u),
        ActionView::Train(u, _, _) => Some(u),
        ActionView::TestUser(u) => Some(u),
        ActionView::SetLabel(u, _) => Some(u),
        ActionView::ListEmbeddings(u) => Some(u),
        ActionView::RemoveEmbedding(u, _) => Some(u),
        _ => None,
    }
}

/// A request reaches a user's face or embeddings only when it names that
/// user and the caller is root or that very user; any other request about
/// a user is answered with a refusal.
pub proof fn lemma_user_actions_need_permission(
    cmd: Command,
    args: Seq<Seq<char>>,
    caller_uid: u32,
    target_uid: Option<u32>,
    absent: bool,
)
    ensures
        acted_user(action_of(cmd, args, caller_uid, target_uid, absent)) matches Some(u) ==> target_of(cmd, args)
            == Some(u) && permitted(caller_uid, target_uid),
        target_of(cmd, args) is Some && !permitted(caller_uid, target_uid) ==> action_of(
            cmd,
            args,
            caller_uid,
            target_uid,
            absent,
        ) is Reply,
{
}

/// A permitted training request trains the user named first, on the label
/// named second, or on `default` when no label is given; `TRAIN_USER`
/// refines that embedding and `TRAIN_NEW` adds a new one.
pub proof fn lemma_training_label(args: Seq<Seq<char>>, caller_uid: u32, target_uid: Option<u32>, absent: bool)
    requires
        args.len() >= 1,
        permitted(caller_uid, target_uid),
    ensures
        action_of(Command::TrainUser, args, caller_uid, target_uid, absent) matches ActionView::Train(u, l, create_new)
            && u == args[0] && !create_new && (args.len() >= 2 ==> l == args[1]) && (args.len() == 1 ==> l
            == "default"@),
        action_of(Command::TrainNew, args, caller_uid, target_uid, absent) matches ActionView::Train(u, l, create_new)
            && u == args[0] && create_new && (args.len() >= 2 ==> l == args[1]) && (args.len() == 1 ==> l
            == "default"@),
{
}

/// A permitted request about a user acts on the user named first, with the
/// label named second where the command takes one: a login is verified when
/// the sensor does not report absence, an enrolment, a test, a listing, a
/// relabelling or a removal is carried out for that user and label.
pub proof fn lemma_request_arguments(args: Seq<Seq<char>>, caller_uid: u32, target_uid: Option<u32>, absent: bool)
    requires
        permitted(caller_uid, target_uid),
    ensures
        args.len() >= 1 && !absent ==> action_of(Command::AuthRequest, args, caller_uid, target_uid, absent)
            == ActionView::Verify(args[0]),
        args.len() >= 1 ==> action_of(Command::AddUser, args, caller_uid, target_uid, absent) == ActionView::Enroll(
            args[0],
        ),
        args.len() >= 1 ==> action_of(Command::TestAuth, args, caller_uid, target_uid, absent) == ActionView::TestUser(
            args[0],
        ),
        args.len() >= 1 ==> action_of(Command::ListEmbeddings, args, caller_uid, target_uid, absent)
            == ActionView::ListEmbeddings(args[0]),
        args.len() >= 2 ==> action_of(Command::SetLabel, args, caller_uid, target_uid, absent) == ActionView::SetLabel(
            args[0],
            args[1],
        ),
        args.len() >= 2 ==> action_of(Command::RemoveEmbedding, args, caller_uid, target_uid, absent)
            == ActionView::RemoveEmbedding(args[0], args[1]),
{
}

/// Only root changes the log level.
pub proof fn lemma_log_level_needs_root(
    cmd: Command,
    args: Seq<Seq<char>>,
    caller_uid: u32,
    target_uid: Option<u32>,
    absent: bool,
)
    ensures
        action_of(cmd, args, caller_uid, target_uid, absent) is SetLogLevel ==> caller_uid == 0,
{
}

/// While proximity is enforced and the sensor reports nobody, no face is
/// verified for a login.
pub proof fn lemma_absence_blocks_login(cmd: Command, args: Seq<Seq<char>>, caller_uid: u32, target_uid: Option<u32>)
    ensures
        !(action_of(cmd, args, caller_uid, target_uid, true) is Verify),
{
}

/// What an action that the engine carried out came to.
#[derive(Debug, Clone)]
pub enum ActionOutcome {
    Verified(bool),
    Enrolled { ok: bool, message: String },
    Trained(bool),
    /// The IR emitter's version, empty when it is not installed.
    Version { ir_status: String },
    TestedUser { success: bool, reason: String },
    TestedHardware(bool),
    LabelSet(bool),
    Listed(Vec<String>),
    Removed(bool),
    Config(String),
    LogLevelSet(LogLevel),
    LogLevelIs(LogLevel),
}

/// The labels joined with single spaces.
pub open spec fn joined(labels: Seq<Seq<char>>) -> Seq<char>
    decreases labels.len(),
{
    if labels.len() == 0 {
        Seq::empty()
    } else if labels.len() == 1 {
        labels[0]
    } else {
        joined(labels.drop_last()) + seq![' '] + labels.last()
    }
}

pub open spec fn level_word(l: LogLevel) -> Seq<char> {
    match l {
        LogLevel::Debug => "DEBUG"@,
        LogLevel::Info => "INFO"@,
        LogLevel::Warn => "WARN"@,
        LogLevel::Error => "ERROR"@,
    }
}

pub open spec fn yes_no(b: bool, yes: Seq<char>, no: Seq<char>) -> Seq<char> {
    if b {
        yes
    } else {
        no
    }
}

/// The answer sent for an outcome.
pub open spec fn reply_of(o: ActionOutcome) -> Seq<char> {
    match o {
        ActionOutcome::Verified(ok) => yes_no(ok, "AUTH_SUCCESS"@, "AUTH_FAIL"@),
        ActionOutcome::Enrolled { ok, message } => if ok {
            "ENROLL_SUCCESS"@
        } else {
            "ENROLL_FAIL "@ + message@
        },
        ActionOutcome::Trained(ok) => yes_no(ok, "TRAIN_SUCCESS"@, "TRAIN_FAIL"@),
        ActionOutcome::Version { ir_status } => if ir_status@.len() == 0 {
            LINUXCAMPAM_VERSION@
        } else {
            LINUXCAMPAM_VERSION@ + " (IR Emitter: "@ + ir_status@ + ")"@
        },
        ActionOutcome::TestedUser { success, reason } => if success {
            "HW_OK | AUTH_SUCCESS"@
        } else {
            "HW_OK | AUTH_FAIL: "@ + reason@
        },
        ActionOutcome::TestedHardware(ok) => yes_no(ok, "HW_OK"@, "HW_FAIL"@),
        ActionOutcome::LabelSet(ok) => yes_no(ok, "LABEL_SET"@, "LABEL_FAIL"@),
        ActionOutcome::Listed(labels) => if labels@.len() == 0 {
            "No embeddings found"@
        } else {
            "Labels: "@ + joined(labels.deep_view())
        },
        ActionOutcome::Removed(ok) => yes_no(ok, "REMOVED"@, "REMOVE_FAIL"@),
        ActionOutcome::Config(text) => text@,
        ActionOutcome::LogLevelSet(l) => "LOG_LEVEL_"@ + level_word(l),
        ActionOutcome::LogLevelIs(l) => level_word(l),
    }
}

fn level_text(l: LogLevel) -> (r: &'static str)
    ensures
        r@ == level_word(l),
{
    match l {
        LogLevel::Debug => "DEBUG",
        LogLevel::Info => "INFO",
        LogLevel::Warn => "WARN",
        LogLevel::Error => "ERROR",
    }
}

fn join_labels(labels: &Vec<String>) -> (r: String)
    ensures
        r@ == joined(labels.deep_view()),
{
    let ghost lv = labels.deep_view();
    let mut out = String::new();
    let mut i: usize = 0;
    proof {
        reveal_strlit("");
    }
    while i < labels.len()
        invariant
            i <= labels@.len(),
            lv == labels.deep_view(),
            out@ == joined(lv.subrange(0, i as int)),
        decreases labels.len() - i,
    {
        assert(lv.subrange(0, i + 1).drop_last() =~= lv.subrange(0, i as int));
        assert(lv.subrange(0, i + 1).last() == lv[i as int]);
        if i > 0 {
            out.push(' ');
        }
        let ghost before = out@;
        push_str(&mut out, labels[i].as_str());
        proof {
            if i == 0 {
                assert(lv.subrange(0, 1) =~= seq![lv[0]]);
                assert(out@ =~= joined(lv.subrange(0, 1)));
            }
        }
        i = i + 1;
    }
    assert(lv.subrange(0, lv.len() as int) =~= lv);
    out
}

/// The answer sent for what an action came to.
pub fn outcome_reply(o: &ActionOutcome) -> (r: String)
    ensures
        r@ == reply_of(*o),
{
    match o {
        ActionOutcome::Verified(ok) => string_from_str(if *ok { "AUTH_SUCCESS" } else { "AUTH_FAIL" }),
        ActionOutcome::Enrolled { ok, message } => {
            if *ok {
                string_from_str("ENROLL_SUCCESS")
            } else {
                let mut r = string_from_str("ENROLL_FAIL ");
                push_str(&mut r, message.as_str());
                r
            }
        },
        ActionOutcome::Trained(ok) => string_from_str(if *ok { "TRAIN_SUCCESS" } else { "TRAIN_FAIL" }),
        ActionOutcome::Version { ir_status } => {
            let mut r = string_from_str(LINUXCAMPAM_VERSION);
            if ir_status.unicode_len() > 0 {
                push_str(&mut r, " (IR Emitter: ");
                push_str(&mut r, ir_status.as_str());
                push_str(&mut r, ")");
            }
            r
        },
        ActionOutcome::TestedUser { success, reason } => {
            if *success {
                string_from_str("HW_OK | AUTH_SUCCESS")
            } else {
                let mut r = string_from_str("HW_OK | AUTH_FAIL: ");
                push_str(&mut r, reason.as_str());
                r
            }
        },
        ActionOutcome::TestedHardware(ok) => string_from_str(if *ok { "HW_OK" } else { "HW_FAIL" }),
        ActionOutcome::LabelSet(ok) => string_from_str(if *ok { "LABEL_SET" } else { "LABEL_FAIL" }),
        ActionOutcome::Listed(labels) => {
            if labels.len() == 0 {
                string_from_str("No embeddings found")
            } else {
                let mut r = string_from_str("Labels: ");
                let j = join_labels(labels);
                push_str(&mut r, j.as_str());
                r
            }
        },
        ActionOutcome::Removed(ok) => string_from_str(if *ok { "REMOVED" } else { "REMOVE_FAIL" }),
        ActionOutcome::Config(text) => copy_string(text),
        ActionOutcome::LogLevelSet(l) => {
            let mut r = string_from_str("LOG_LEVEL_");
            push_str(&mut r, level_text(*l));
            r
        },
        ActionOutcome::LogLevelIs(l) => string_from_str(level_text(*l)),
    }
}

/// What the daemon remembers of the proximity sensor's reports, and of the
/// screen: whether the user is taken to be away, and since when (in
/// milliseconds of a monotonic clock) the absence that may lock the screen
/// began.
#[derive(Debug, Clone, Copy, PartialEq, Eq, Structural)]
pub struct PresenceState {
    pub last_present: bool,
    pub last_confidence: i32,
    pub was_away: bool,
    pub absence_timer_active: bool,
    pub absence_start_ms: u64,
}

/// A change of presence worth logging, with the confidence to report.
#[derive(Debug, Clone, Copy, PartialEq, Eq, Structural)]
pub enum PresenceChange {
    Arrived(i32),
    Left(i32),
}

/// What a sensor report leads to: a change to log, and whether to wake the
/// screen.
#[derive(Debug, Clone, Copy, PartialEq, Eq, Structural)]
pub struct PresenceEffects {
    pub change: Option<PresenceChange>,
    pub wake: bool,
}

/// The settings that the proximity decisions use.
#[derive(Debug, Clone, Copy, PartialEq, Eq, Structural)]
pub struct ProximityRules {
    pub wake_enabled: bool,
    pub wake_confidence_threshold: i32,
    pub always_wake_on_presence_detected: bool,
    pub lock_enabled: bool,
    pub lock_confidence_threshold: i32,
    pub lock_timeout_seconds: i32,
}

/// The state before any report: nobody seen, the user taken to be away.
pub open spec fn initial_presence(now_ms: u64) -> PresenceState {
    PresenceState {
        last_present: false,
        last_confidence: 0,
        was_away: true,
        absence_timer_active: false,
        absence_start_ms: now_ms,
    }
}

pub open spec fn rules_of(c: &Configuration) -> ProximityRules {
    ProximityRules {
        wake_enabled: c.wake_enabled,
        wake_confidence_threshold: c.wake_confidence_threshold,
        always_wake_on_presence_detected: c.always_wake_on_presence_detected,
        lock_enabled: c.lock_enabled,
        lock_confidence_threshold: c.lock_confidence_threshold,
        lock_timeout_seconds: c.lock_timeout_seconds,
    }
}

/// Whether a report wakes the screen: someone is present with enough
/// confidence, waking is enabled, and the user was away or (when configured)
/// has just come back.
pub open spec fn wakes(st: PresenceState, r: ProximityRules, present: bool, confidence: i32) -> bool {
    let just_returned = present && !st.last_present;
    present && r.wake_enabled && confidence >= r.wake_confidence_threshold && (st.was_away || (
    r.always_wake_on_presence_detected && just_returned))
}

/// Whether a report counts as absence for locking.
pub open spec fn seems_absent(r: ProximityRules, present: bool, confidence: i32) -> bool {
    confidence < r.lock_confidence_threshold || !present
}

/// The state after a report at `now`.
pub open spec fn after_report(st: PresenceState, r: ProximityRules, present: bool, confidence: i32, now: u64) -> PresenceState {
    let away = st.was_away && !wakes(st, r, present, confidence);
    let base = PresenceState {
        last_present: present,
        last_confidence: if present {
            confidence
        } else {
            st.last_confidence
        },
        was_away: away,
        ..st
    };
    if r.lock_enabled {
        if seems_absent(r, present, confidence) {
            if !away && !st.absence_timer_active {
                PresenceState { absence_timer_active: true, absence_start_ms: now, ..base }
            } else {
                base
            }
        } else {
            PresenceState { absence_timer_active: false, ..base }
        }
    } else if seems_absent(r, present, confidence) {
        PresenceState { was_away: true, ..base }
    } else {
        base
    }
}

/// The change that a report shows, if any.
pub open spec fn change_of(st: PresenceState, present: bool, confidence: i32) -> Option<PresenceChange> {
    if present == st.last_present {
        None
    } else if present {
        Some(PresenceChange::Arrived(confidence))
    } else {
        Some(PresenceChange::Left(st.last_confidence))
    }
}

/// The rules that a configuration sets.
pub fn proximity_rules(c: &Configuration) -> (r: ProximityRules)
    ensures
        r == rules_of(c),
{
    ProximityRules {
        wake_enabled: c.wake_enabled,
        wake_confidence_threshold: c.wake_confidence_threshold,
        always_wake_on_presence_detected: c.always_wake_on_presence_detected,
        lock_enabled: c.lock_enabled,
        lock_confidence_threshold: c.lock_confidence_threshold,
        lock_timeout_seconds: c.lock_timeout_seconds,
    }
}

/// The state when the daemon starts, at `now_ms`.
pub fn new_presence_state(now_ms: u64) -> (st: PresenceState)
    ensures
        st == initial_presence(now_ms),
{
    PresenceState {
        last_present: false,
        last_confidence: 0,
        was_away: true,
        absence_timer_active: false,
        absence_start_ms: now_ms,
    }
}

/// Takes a sensor report (`present`, with `confidence` percent) at
/// `now_ms` into the state, and says what to log and whether to wake the
/// screen.
pub fn on_presence_report(st: &mut PresenceState, r: ProximityRules, present: bool, confidence: i32, now_ms: u64) -> (e: PresenceEffects)
    ensures
        *final(st) == after_report(*old(st), r, present, confidence, now_ms),
        e.change == change_of(*old(st), present, confidence),
        e.wake == wakes(*old(st), r, present, confidence),
{
    let just_returned = present && !st.last_present;
    let change = if present == st.last_present {
        None
    } else if present {
        Some(PresenceChange::Arrived(confidence))
    } else {
        Some(PresenceChange::Left(st.last_confidence))
    };
    st.last_present = present;
    if present {
        st.last_confidence = confidence;
    }
    let wake = present && r.wake_enabled && confidence >= r.wake_confidence_threshold && (st.was_away || (
    r.always_wake_on_presence_detected && just_returned));
    if wake {
        st.was_away = false;
    }
    let absent = confidence < r.lock_confidence_threshold || !present;
    if r.lock_enabled {
        if absent {
            if !st.was_away && !st.absence_timer_active {
                st.absence_start_ms = now_ms;
                st.absence_timer_active = true;
            }
        } else {
            st.absence_timer_active = false;
        }
    } else if absent {
        st.was_away = true;
    }
    PresenceEffects { change, wake }
}

/// Whether the screen is due to be locked at `now`: locking is enabled, an
/// absence is being timed, and it has lasted the whole timeout (in whole
/// seconds).
pub open spec fn lock_due(st: PresenceState, r: ProximityRules, now: u64) -> bool {
    r.lock_enabled && st.absence_timer_active && !st.was_away && (now - st.absence_start_ms) / 1000
        >= r.lock_timeout_seconds
}

/// The state once the screen is locked: the user is taken to be away and
/// the absence is no longer timed.
pub open spec fn after_lock(st: PresenceState) -> PresenceState {
    PresenceState { was_away: true, absence_timer_active: false, ..st }
}

/// Checks at `now_ms` whether to lock the screen; when it is locked the
/// user is taken to be away and the absence is no longer timed.
pub fn check_lock(st: &mut PresenceState, r: ProximityRules, now_ms: u64) -> (lock: bool)
    requires
        old(st).absence_start_ms <= now_ms,
    ensures
        lock == lock_due(*old(st), r, now_ms),
        lock ==> *final(st) == after_lock(*old(st)),
        !lock ==> *final(st) == *old(st),
{
    if r.lock_enabled && st.absence_timer_active && !st.was_away {
        let elapsed = (now_ms - st.absence_start_ms) / 1000;
        let due = if r.lock_timeout_seconds < 0 {
            true
        } else {
            elapsed >= r.lock_timeout_seconds as u64
        };
        if due {
            st.was_away = true;
            st.absence_timer_active = false;
            return true;
        }
    }
    false
}

/// While locking is enabled and an absence is being timed, a further report
/// of absence (nobody present, or a confidence below the lock threshold)
/// keeps timing it from when it began.
pub proof fn lemma_absence_timer_kept(st: PresenceState, r: ProximityRules, present: bool, confidence: i32, now: u64)
    requires
        r.lock_enabled,
        st.absence_timer_active,
        !present || confidence < r.lock_confidence_threshold,
    ensures
        after_report(st, r, present, confidence, now).absence_timer_active,
        after_report(st, r, present, confidence, now).absence_start_ms == st.absence_start_ms,
{
}

/// The state after reports that nobody is present, each with its confidence
/// and time, in order.
pub open spec fn after_absent_reports(st: PresenceState, r: ProximityRules, reports: Seq<(i32, u64)>) -> PresenceState
    decreases reports.len(),
{
    if reports.len() == 0 {
        st
    } else {
        after_report(after_absent_reports(st, r, reports.drop_last()), r, false, reports.last().0, reports.last().1)
    }
}

proof fn lemma_absent_reports_time_from_first(st: PresenceState, r: ProximityRules, reports: Seq<(i32, u64)>)
    requires
        r.lock_enabled,
        !st.was_away,
        !st.absence_timer_active,
        reports.len() > 0,
    ensures
        after_absent_reports(st, r, reports).absence_timer_active,
        after_absent_reports(st, r, reports).absence_start_ms == reports[0].1,
        !after_absent_reports(st, r, reports).was_away,
    decreases reports.len(),
{
    let prev = after_absent_reports(st, r, reports.drop_last());
    let last = reports.last();
    assert(after_absent_reports(st, r, reports) == after_report(prev, r, false, last.0, last.1));
    assert(!wakes(prev, r, false, last.0));
    assert(seems_absent(r, false, last.0));
    if reports.len() > 1 {
        lemma_absent_reports_time_from_first(st, r, reports.drop_last());
        assert(reports.drop_last()[0] == reports[0]);
    } else {
        assert(reports.drop_last().len() == 0);
        assert(prev == st);
        assert(last == reports[0]);
    }
}

/// With locking enabled, once a user who is present stops being seen, the
/// absence is timed from the first report of it however often the sensor
/// reports again, and the lock is due as soon as the timeout has passed
/// since that first report.
pub proof fn lemma_absence_leads_to_lock(st: PresenceState, r: ProximityRules, reports: Seq<(i32, u64)>, now: u64)
    requires
        r.lock_enabled,
        !st.was_away,
        !st.absence_timer_active,
        reports.len() > 0,
        now >= reports[0].1,
        (now - reports[0].1) / 1000 >= r.lock_timeout_seconds,
    ensures
        after_absent_reports(st, r, reports).absence_start_ms == reports[0].1,
        lock_due(after_absent_reports(st, r, reports), r, now),
{
    lemma_absent_reports_time_from_first(st, r, reports);
}

/// The screen is woken only when someone is present with at least the
/// configured confidence and waking is enabled; once woken, the user is no
/// longer taken to be away, unless locking is off and the same report is
/// below the lock threshold.
pub proof fn lemma_wake_needs_presence(st: PresenceState, r: ProximityRules, present: bool, confidence: i32, now: u64)
    requires
        wakes(st, r, present, confidence),
    ensures
        present,
        r.wake_enabled,
        confidence >= r.wake_confidence_threshold,
        r.lock_enabled || !seems_absent(r, present, confidence) ==> !after_report(
            st,
            r,
            present,
            confidence,
            now,
        ).was_away,
{
}

/// Two reports of presence in a row wake the screen at most once: after the
/// first, the user is neither away nor just returned (unless locking is off
/// and the first report was below the lock threshold, which marks the user
/// away again).
pub proof fn lemma_no_repeated_wake(
    st: PresenceState,
    r: ProximityRules,
    c1: i32,
    c2: i32,
    t1: u64,
    t2: u64,
)
    requires
        wakes(st, r, true, c1),
        r.lock_enabled || c1 >= r.lock_confidence_threshold,
    ensures
        !wakes(after_report(st, r, true, c1, t1), r, true, c2),
{
}

/// A lock happens only when locking is enabled, and leaves the user taken
/// to be away, so that it does not repeat until the user is seen again.
pub proof fn lemma_lock_once(st: PresenceState, r: ProximityRules, now: u64, later: u64)
    requires
        lock_due(st, r, now),
    ensures
        r.lock_enabled,
        !lock_due(after_lock(st), r, later),
{
}

} // verus!
