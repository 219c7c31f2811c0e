//! The decisions of the PAM module's authentication: which users it handles,
//! when it asks for confirmation, what the daemon's answer means, and the
//! welcome message.
use vstd::prelude::*;

use crate::ipc_protocol::{request_text, Command, Request};
use crate::text::{chars_eq, chars_eq_str, chars_of, has_prefix, push_chars, string_from_chars, string_from_str};

verus! {

pub const PAM_SUCCESS: i32 = 0;

pub const PAM_AUTH_ERR: i32 = 7;

pub const PAM_AUTHINFO_UNAVAIL: i32 = 9;

pub const PAM_USER_UNKNOWN: i32 = 10;

pub const PAM_IGNORE: i32 = 25;

pub const PAM_SERVICE: i32 = 1;

pub const PAM_CONV: i32 = 5;

pub const PAM_AUTHTOK: i32 = 6;

pub const PAM_SILENT: i32 = 0x8000;

pub const PAM_PROMPT_ECHO_OFF: i32 = 1;

pub const PAM_TEXT_INFO: i32 = 4;

/// The prompt shown when confirmation is required.
pub const CONFIRMATION_PROMPT: &'static str = "Press <Enter> to authenticate with face, or type password:";

/// Whether the welcome message is shown after the module's arguments: it is
/// unless one of them is `no_welcome`.
pub fn welcome_after_args(show_welcome: bool, args: &Vec<String>) -> (r: bool)
    ensures
        r == (show_welcome && !args.deep_view().contains("no_welcome"@)),
{
    let ghost av = args.deep_view();
    let mut show = show_welcome;
    let mut i: usize = 0;
    while i < args.len()
        invariant
            i <= args@.len(),
            av == args.deep_view(),
            show == (show_welcome && !av.subrange(0, i as int).contains("no_welcome"@)),
        decreases args.len() - i,
    {
        let a = chars_of(args[i].as_str());
        if chars_eq_str(a.as_slice(), "no_welcome") {
            show = false;
            assert(av.subrange(0, i + 1)[i as int] == "no_welcome"@);
        } else {
            assert forall|k: int| 0 <= k < i + 1 && #[trigger] av.subrange(0, i + 1)[k] == "no_welcome"@ implies av.subrange(
                0,
                i as int,
            ).contains("no_welcome"@) by {
                assert(av.subrange(0, i as int)[k] == av[k]);
            }
        }
        i = i + 1;
    }
    assert(av.subrange(0, av.len() as int) =~= av);
    show
}

/// What becomes of a user from the system's user database: `None` to go
/// on, else the code to return. An unknown user is refused; a user whose id
/// is below the configured minimum (when there is one) is left to the other
/// modules.
pub open spec fn account_decision(min_uid: u32, uid: Option<u32>) -> Option<i32> {
    match uid {
        None => Some(PAM_USER_UNKNOWN),
        Some(u) => if min_uid > 0 && u < min_uid {
            Some(PAM_IGNORE)
        } else {
            None
        },
    }
}

pub fn check_account(min_uid: u32, uid: Option<u32>) -> (r: Option<i32>)
    ensures
        r == account_decision(min_uid, uid),
{
    match uid {
        None => Some(PAM_USER_UNKNOWN),
        Some(u) => {
            if min_uid > 0 && u < min_uid {
                Some(PAM_IGNORE)
            } else {
                None
            }
        },
    }
}

/// Whether the user is asked to confirm: confirmation is required, and the
/// service is unknown or not exempt.
pub fn needs_confirmation(require_confirmation: bool, service: Option<&str>, exempt: &Vec<String>) -> (r: bool)
    ensures
        r == (require_confirmation && match service {
            Some(s) => !exempt.deep_view().contains(s@),
            None => true,
        }),
{
    if !require_confirmation {
        return false;
    }
    match service {
        None => true,
        Some(s) => {
            let ghost ev = exempt.deep_view();
            let sc = chars_of(s);
            let mut i: usize = 0;
            while i < exempt.len()
                invariant
                    i <= exempt@.len(),
                    require_confirmation,
                    service == Some(s),
                    ev == exempt.deep_view(),
                    sc@ == s@,
                    forall|k: int| 0 <= k < i ==> ev[k] != s@,
                decreases exempt.len() - i,
            {
                let e = chars_of(exempt[i].as_str());
                if chars_eq(e.as_slice(), sc.as_slice()) {
                    assert(ev[i as int] == s@);
                    assert(ev.contains(s@));
                    return false;
                }
                i = i + 1;
            }
            assert(!ev.contains(s@));
            true
        },
    }
}

/// What the conversation that asked for confirmation came to.
#[derive(Debug, Clone)]
pub enum ConfirmationReply {
    /// The conversation could not be obtained.
    Unavailable,
    /// The conversation has no function to call.
    NoFunction,
    /// The conversation failed or was cancelled.
    Failed,
    /// The user answered; `None` when no response came back.
    Answered(Option<String>),
}

/// What follows the confirmation.
#[derive(Debug, Clone, Copy, PartialEq, Eq, Structural)]
pub enum ConfirmationStep {
    /// Go on and ask the daemon.
    Proceed,
    /// Return this code.
    Stop(i32),
    /// The user typed a password: hand it on as the token and return this code.
    PasswordGiven(i32),
}

pub open spec fn confirmation_step_of(reply: ConfirmationReply) -> ConfirmationStep {
    match reply {
        ConfirmationReply::Unavailable => ConfirmationStep::Stop(PAM_AUTHINFO_UNAVAIL),
        ConfirmationReply::NoFunction => ConfirmationStep::Proceed,
        ConfirmationReply::Failed => ConfirmationStep::Stop(PAM_AUTH_ERR),
        ConfirmationReply::Answered(r) => match r {
            Some(text) => if text@.len() > 0 {
                ConfirmationStep::PasswordGiven(PAM_IGNORE)
            } else {
                ConfirmationStep::Proceed
            },
            None => ConfirmationStep::Proceed,
        },
    }
}

/// What follows the user's answer to the confirmation prompt.
pub fn confirmation_step(reply: &ConfirmationReply) -> (r: ConfirmationStep)
    ensures
        r == confirmation_step_of(*reply),
{
    match reply {
        ConfirmationReply::Unavailable => ConfirmationStep::Stop(PAM_AUTHINFO_UNAVAIL),
        ConfirmationReply::NoFunction => ConfirmationStep::Proceed,
        ConfirmationReply::Failed => ConfirmationStep::Stop(PAM_AUTH_ERR),
        ConfirmationReply::Answered(r) => match r {
            Some(text) => {
                if text.unicode_len() > 0 {
                    ConfirmationStep::PasswordGiven(PAM_IGNORE)
                } else {
                    ConfirmationStep::Proceed
                }
            },
            None => ConfirmationStep::Proceed,
        },
    }
}

/// Whether `p` occurs in `s`.
pub open spec fn contains_seq(s: Seq<char>, p: Seq<char>) -> bool {
    exists|i: int| 0 <= i <= s.len() - p.len() && #[trigger] s.subrange(i, i + p.len()) == p
}

fn occurs_at(s: &[char], p: &[char], i: usize) -> (r: bool)
    requires
        i + p@.len() <= s@.len(),
    ensures
        r == (s@.subrange(i as int, i + p@.len()) == p@),
{
    let mut k: usize = 0;
    assert(s@.len() == s.len());
    while k < p.len()
        invariant
            k <= p@.len(),
            i + p@.len() <= s@.len(),
            s@.len() <= usize::MAX,
            forall|j: int| 0 <= j < k ==> s@[i + j] == p@[j],
        decreases p.len() - k,
    {
        if s[i + k] != p[k] {
            assert(s@.subrange(i as int, i + p@.len())[k as int] != p@[k as int]);
            return false;
        }
        k = k + 1;
    }
    assert(s@.subrange(i as int, i + p@.len()) =~= p@);
    true
}

/// The code that the daemon's answer leads to: success when the answer
/// contains `AUTH_SUCCESS`, failure otherwise.
pub fn daemon_verdict(response: &str) -> (r: i32)
    ensures
        r == (if contains_seq(response@, "AUTH_SUCCESS"@) {
            PAM_SUCCESS
        } else {
            PAM_AUTH_ERR
        }),
{
    let s = chars_of(response);
    let p = chars_of("AUTH_SUCCESS");
    proof {
        reveal_strlit("AUTH_SUCCESS");
    }
    if s.len() < p.len() {
        return PAM_AUTH_ERR;
    }
    let mut i: usize = 0;
    let last = s.len() - p.len();
    assert(p@.len() == 12);
    while i <= last
        invariant
            p@.len() <= s@.len(),
            p@.len() == 12,
            last + p@.len() == s@.len(),
            s@.len() <= usize::MAX,
            i <= last + 1,
            s@ == response@,
            p@ == "AUTH_SUCCESS"@,
            forall|j: int| 0 <= j < i ==> #[trigger] s@.subrange(j, j + p@.len()) != p@,
        decreases s.len() - p.len() + 1 - i,
    {
        if occurs_at(s.as_slice(), p.as_slice(), i) {
            return PAM_SUCCESS;
        }
        i = i + 1;
    }
    PAM_AUTH_ERR
}

/// `s` with every occurrence of `p` replaced by `r`, left to right, without
/// overlaps.
pub open spec fn replace_all(s: Seq<char>, p: Seq<char>, r: Seq<char>) -> Seq<char>
    decreases s.len(),
{
    if p.len() == 0 || s.len() < p.len() {
        s
    } else if s.subrange(0, p.len() as int) == p {
        r + replace_all(s.subrange(p.len() as int, s.len() as int), p, r)
    } else {
        seq![s[0]] + replace_all(s.drop_first(), p, r)
    }
}

fn replace_chars(s: &[char], p: &[char], r: &[char]) -> (out: String)
    requires
        p@.len() > 0,
    ensures
        out@ == replace_all(s@, p@, r@),
{
    let mut out = String::new();
    let mut i: usize = 0;
    proof {
        reveal_strlit("");
    }
    assert(s@.subrange(0, s@.len() as int) == s@);
    assert(s@.len() == s.len());
    while i < s.len()
        invariant
            i <= s@.len(),
            s@.len() <= usize::MAX,
            p@.len() > 0,
            out@ + replace_all(s@.subrange(i as int, s@.len() as int), p@, r@) == replace_all(s@, p@, r@),
        decreases s.len() - i,
    {
        let ghost rest = s@.subrange(i as int, s@.len() as int);
        if p.len() <= s.len() - i && occurs_at(s, p, i) {
            assert(rest.subrange(0, p@.len() as int) =~= s@.subrange(i as int, i + p@.len()));
            assert(rest.subrange(p@.len() as int, rest.len() as int) =~= s@.subrange(i + p@.len(), s@.len() as int));
            let ghost before = out@;
            push_chars(&mut out, r);
            assert(out@ + replace_all(s@.subrange(i + p@.len(), s@.len() as int), p@, r@) =~= before + (r@
                + replace_all(rest.subrange(p@.len() as int, rest.len() as int), p@, r@)));
            i = i + p.len();
        } else {
            proof {
                if i + p@.len() <= s@.len() {
                    assert(rest.subrange(0, p@.len() as int) =~= s@.subrange(i as int, i + p@.len()));
                }
            }
            assert(rest.drop_first() =~= s@.subrange(i + 1, s@.len() as int));
            assert(rest[0] == s@[i as int]);
            let ghost before = out@;
            out.push(s[i]);
            assert(out@ + replace_all(s@.subrange(i + 1, s@.len() as int), p@, r@) =~= before + (seq![rest[0]]
                + replace_all(rest.drop_first(), p@, r@)));
            i = i + 1;
        }
    }
    assert(out@ =~= replace_all(s@, p@, r@));
    out
}

/// What the module does next in an authentication.
#[derive(Debug, Clone, PartialEq, Eq)]
pub enum PamStep {
    /// Return this code.
    Finish(i32),
    /// Find out which service is asking, to decide on confirmation.
    LookUpService,
    /// Ask the user to confirm with `CONFIRMATION_PROMPT`.
    Confirm,
    /// Send this request to the daemon and read its answer.
    Ask(String),
}

pub enum PamStepView {
    Finish(i32),
    LookUpService,
    Confirm,
    Ask(Seq<char>),
}

impl View for PamStep {
    type V = PamStepView;

    open spec fn view(&self) -> PamStepView {
        match self {
            PamStep::Finish(c) => PamStepView::Finish(*c),
            PamStep::LookUpService => PamStepView::LookUpService,
            PamStep::Confirm => PamStepView::Confirm,
            PamStep::Ask(t) => PamStepView::Ask(t@),
        }
    }
}

/// The request that asks the daemon to authenticate `username`.
pub open spec fn auth_request_text(username: Seq<char>) -> Seq<char> {
    request_text(Command::AuthRequest, seq![username])
}

/// The step after looking the user up in the system's user database (`uid`
/// is the user's id, `None` when the user is not found).
pub open spec fn after_account_of(min_uid: u32, uid: Option<u32>, require_confirmation: bool, username: Seq<char>) -> PamStepView {
    match account_decision(min_uid, uid) {
        Some(code) => PamStepView::Finish(code),
        None => if require_confirmation {
            PamStepView::LookUpService
        } else {
            PamStepView::Ask(auth_request_text(username))
        },
    }
}

/// The step after finding out the service (`None` when it is unknown).
pub open spec fn after_service_of(service: Option<Seq<char>>, exempt: Seq<Seq<char>>, username: Seq<char>) -> PamStepView {
    let confirm = match service {
        Some(s) => !exempt.contains(s),
        None => true,
    };
    if confirm {
        PamStepView::Confirm
    } else {
        PamStepView::Ask(auth_request_text(username))
    }
}

/// The step after the user's answer to the confirmation prompt.
pub open spec fn after_confirmation_of(reply: ConfirmationReply, username: Seq<char>) -> PamStepView {
    match confirmation_step_of(reply) {
        ConfirmationStep::Proceed => PamStepView::Ask(auth_request_text(username)),
        ConfirmationStep::Stop(code) => PamStepView::Finish(code),
        ConfirmationStep::PasswordGiven(code) => PamStepView::Finish(code),
    }
}

fn auth_request(username: &str) -> (r: String)
    ensures
        r@ == auth_request_text(username@),
{
    let req = Request::new(Command::AuthRequest, vec![string_from_str(username)]);
    let r = req.serialize();
    assert(req.args.deep_view() =~= seq![username@]);
    r
}

/// The step after looking the user up.
pub fn after_account(min_uid: u32, uid: Option<u32>, require_confirmation: bool, username: &str) -> (r: PamStep)
    ensures
        r@ == after_account_of(min_uid, uid, require_confirmation, username@),
{
    match check_account(min_uid, uid) {
        Some(code) => PamStep::Finish(code),
        None => if require_confirmation {
            PamStep::LookUpService
        } else {
            PamStep::Ask(auth_request(username))
        },
    }
}

/// The step after finding out the service.
pub fn after_service(service: Option<&str>, exempt: &Vec<String>, username: &str) -> (r: PamStep)
    ensures
        r@ == after_service_of(
            match service {
                Some(s) => Some(s@),
                None => None,
            },
            exempt.deep_view(),
            username@,
        ),
{
    if needs_confirmation(true, service, exempt) {
        PamStep::Confirm
    } else {
        PamStep::Ask(auth_request(username))
    }
}

/// The step after the user's answer to the confirmation prompt.
pub fn after_confirmation(reply: &ConfirmationReply, username: &str) -> (r: PamStep)
    ensures
        r@ == after_confirmation_of(*reply, username@),
{
    match confirmation_step(reply) {
        ConfirmationStep::Proceed => PamStep::Ask(auth_request(username)),
        ConfirmationStep::Stop(code) => PamStep::Finish(code),
        ConfirmationStep::PasswordGiven(code) => PamStep::Finish(code),
    }
}

/// The module asks the daemon only about a user that the system's database
/// knows and whose id is not below the configured minimum, and what it asks
/// is the authentication request for that user; an unknown user is refused
/// and a user below the minimum is left to the other modules, without asking.
/// A confirmation that stops the module never returns success.
pub proof fn lemma_pam_asks_only_for_accepted_users(
    min_uid: u32,
    uid: Option<u32>,
    require_confirmation: bool,
    service: Option<Seq<char>>,
    exempt: Seq<Seq<char>>,
    reply: ConfirmationReply,
    username: Seq<char>,
)
    ensures
        uid is None ==> after_account_of(min_uid, uid, require_confirmation, username) == PamStepView::Finish(
            PAM_USER_UNKNOWN,
        ),
        uid matches Some(u) && min_uid > 0 && u < min_uid ==> after_account_of(
            min_uid,
            uid,
            require_confirmation,
            username,
        ) == PamStepView::Finish(PAM_IGNORE),
        !(after_account_of(min_uid, uid, require_confirmation, username) is Finish) ==> (uid is Some && !(min_uid > 0
            && uid->0 < min_uid)),
        after_account_of(min_uid, uid, require_confirmation, username) matches PamStepView::Ask(t) ==> t
            == auth_request_text(username),
        after_service_of(service, exempt, username) matches PamStepView::Ask(t) ==> t == auth_request_text(username),
        after_confirmation_of(reply, username) matches PamStepView::Ask(t) ==> t == auth_request_text(username),
        after_confirmation_of(reply, username) matches PamStepView::Finish(c) ==> c != PAM_SUCCESS,
        auth_request_text(username) == "AUTH_REQUEST "@ + username,
{
    reveal_strlit("AUTH_REQUEST");
    reveal_strlit("AUTH_REQUEST ");
    let e = Seq::<Seq<char>>::empty();
    assert(seq![username].drop_last() =~= e);
    assert(request_text(Command::AuthRequest, e) == "AUTH_REQUEST"@);
    assert("AUTH_REQUEST"@.push(' ') =~= "AUTH_REQUEST "@);
    assert(seq![username].last() == username);
}

/// The welcome message to show after a success, if any: the template with
/// `%u` replaced by the user name, when showing is enabled, the call is not
/// silent, and the message is not empty.
pub open spec fn welcome_of(show_welcome: bool, silent: bool, template: Seq<char>, username: Seq<char>) -> Option<Seq<char>> {
    let m = replace_all(template, "%u"@, username);
    if show_welcome && !silent && m.len() > 0 {
        Some(m)
    } else {
        None
    }
}

pub fn welcome_message(show_welcome: bool, flags: i32, template: &str, username: &str) -> (r: Option<String>)
    ensures
        match r {
            Some(m) => welcome_of(show_welcome, flags & PAM_SILENT != 0, template@, username@) == Some(m@),
            None => welcome_of(show_welcome, flags & PAM_SILENT != 0, template@, username@) is None,
        },
{
    let silent = flags & PAM_SILENT != 0;
    let t = chars_of(template);
    let p = chars_of("%u");
    let u = chars_of(username);
    proof {
        reveal_strlit("%u");
    }
    let m = replace_chars(t.as_slice(), p.as_slice(), u.as_slice());
    if show_welcome && !silent && m.unicode_len() > 0 {
        Some(m)
    } else {
        None
    }
}

} // verus!
