//! The line protocol spoken over the daemon's socket: a command word
//! followed by space-separated arguments.
use vstd::prelude::*;

use crate::text::{
    chars_eq_str, chars_of, copy_range, keep_nonempty, nonempty, push_str, split_chars, split_seq,
    split_state, string_from_str, strings_from, views,
};

verus! {

/// The commands of the socket protocol.
#[derive(Debug, Clone, Copy, PartialEq, Eq, Structural)]
pub enum Command {
    AuthRequest,
    AddUser,
    TrainUser,
    TestAuth,
    SetLabel,
    TrainNew,
    ListEmbeddings,
    RemoveEmbedding,
    GetConfig,
    SetLogLevel,
    GetLogLevel,
    GetVersion,
    Unknown,
}

/// The word that names a command on the wire.
pub open spec fn command_text(c: Command) -> Seq<char> {
    match c {
        Command::AuthRequest => "AUTH_REQUEST"@,
        Command::AddUser => "ADD_USER"@,
        Command::TrainUser => "TRAIN_USER"@,
        Command::TestAuth => "TEST_AUTH"@,
        Command::SetLabel => "SET_LABEL"@,
        Command::TrainNew => "TRAIN_NEW"@,
        Command::ListEmbeddings => "LIST_EMBEDDINGS"@,
        Command::RemoveEmbedding => "REMOVE_EMBEDDING"@,
        Command::GetConfig => "GET_CONFIG"@,
        Command::SetLogLevel => "SET_LOG_LEVEL"@,
        Command::GetLogLevel => "GET_LOG_LEVEL"@,
        Command::GetVersion => "GET_VERSION"@,
        Command::Unknown => "UNKNOWN"@,
    }
}

/// The command that a word names; every other word is `Unknown`.
pub open spec fn command_of(s: Seq<char>) -> Command {
    if s == "AUTH_REQUEST"@ {
        Command::AuthRequest
    } else if s == "ADD_USER"@ {
        Command::AddUser
    } else if s == "TRAIN_USER"@ {
        Command::TrainUser
    } else if s == "TEST_AUTH"@ {
        Command::TestAuth
    } else if s == "SET_LABEL"@ {
        Command::SetLabel
    } else if s == "TRAIN_NEW"@ {
        Command::TrainNew
    } else if s == "LIST_EMBEDDINGS"@ {
        Command::ListEmbeddings
    } else if s == "REMOVE_EMBEDDING"@ {
        Command::RemoveEmbedding
    } else if s == "GET_CONFIG"@ {
        Command::GetConfig
    } else if s == "SET_LOG_LEVEL"@ {
        Command::SetLogLevel
    } else if s == "GET_LOG_LEVEL"@ {
        Command::GetLogLevel
    } else if s == "GET_VERSION"@ {
        Command::GetVersion
    } else {
        Command::Unknown
    }
}

fn command_from_chars(v: &[char]) -> (c: Command)
    ensures
        c == command_of(v@),
{
    if chars_eq_str(v, "AUTH_REQUEST") {
        Command::AuthRequest
    } else if chars_eq_str(v, "ADD_USER") {
        Command::AddUser
    } else if chars_eq_str(v, "TRAIN_USER") {
        Command::TrainUser
    } else if chars_eq_str(v, "TEST_AUTH") {
        Command::TestAuth
    } else if chars_eq_str(v, "SET_LABEL") {
        Command::SetLabel
    } else if chars_eq_str(v, "TRAIN_NEW") {
        Command::TrainNew
    } else if chars_eq_str(v, "LIST_EMBEDDINGS") {
        Command::ListEmbeddings
    } else if chars_eq_str(v, "REMOVE_EMBEDDING") {
        Command::RemoveEmbedding
    } else if chars_eq_str(v, "GET_CONFIG") {
        Command::GetConfig
    } else if chars_eq_str(v, "SET_LOG_LEVEL") {
        Command::SetLogLevel
    } else if chars_eq_str(v, "GET_LOG_LEVEL") {
        Command::GetLogLevel
    } else if chars_eq_str(v, "GET_VERSION") {
        Command::GetVersion
    } else {
        Command::Unknown
    }
}

impl Command {
    /// The word that names this command on the wire.
    pub fn as_str(&self) -> (s: &'static str)
        ensures
            s@ == command_text(*self),
    {
        match self {
            Command::AuthRequest => "AUTH_REQUEST",
            Command::AddUser => "ADD_USER",
            Command::TrainUser => "TRAIN_USER",
            Command::TestAuth => "TEST_AUTH",
            Command::SetLabel => "SET_LABEL",
            Command::TrainNew => "TRAIN_NEW",
            Command::ListEmbeddings => "LIST_EMBEDDINGS",
            Command::RemoveEmbedding => "REMOVE_EMBEDDING",
            Command::GetConfig => "GET_CONFIG",
            Command::SetLogLevel => "SET_LOG_LEVEL",
            Command::GetLogLevel => "GET_LOG_LEVEL",
            Command::GetVersion => "GET_VERSION",
            Command::Unknown => "UNKNOWN",
        }
    }

    /// The command that a word names; any other word gives `Unknown`.
    #[allow(clippy::should_implement_trait)]
    pub fn from_str(s: &str) -> (c: Command)
        ensures
            c == command_of(s@),
    {
        let v = chars_of(s);
        command_from_chars(v.as_slice())
    }
}

/// The word that names `cmd`.
pub fn command_to_string(cmd: Command) -> (s: String)
    ensures
        s@ == command_text(cmd),
{
    string_from_str(cmd.as_str())
}

/// The command that the word `str` names.
pub fn string_to_command(str: &str) -> (c: Command)
    ensures
        c == command_of(str@),
{
    Command::from_str(str)
}

/// A request: a command and its arguments.
#[derive(Debug, Clone, PartialEq, Eq)]
pub struct Request {
    pub cmd: Command,
    pub args: Vec<String>,
}

/// The wire form of a request: the command word, then each argument after a space.
pub open spec fn request_text(cmd: Command, args: Seq<Seq<char>>) -> Seq<char>
    decreases args.len(),
{
    if args.len() == 0 {
        command_text(cmd)
    } else {
        request_text(cmd, args.drop_last()).push(' ') + args.last()
    }
}

/// What a wire line is read as: the word before the first space names the
/// command, and the non-empty space-separated pieces after it are the arguments.
pub open spec fn request_of(s: Seq<char>) -> (Command, Seq<Seq<char>>) {
    let pieces = split_seq(s, ' ');
    (command_of(pieces[0]), nonempty(pieces.drop_first()))
}

impl Request {
    pub fn new(cmd: Command, args: Vec<String>) -> (r: Self)
        ensures
            r.cmd == cmd,
            r.args == args,
    {
        Request { cmd, args }
    }

    /// The wire form of the request.
    pub fn serialize(&self) -> (out: String)
        ensures
            out@ == request_text(self.cmd, self.args.deep_view()),
    {
        let mut out = command_to_string(self.cmd);
        let mut i: usize = 0;
        while i < self.args.len()
            invariant
                i <= self.args.len(),
                out@ == request_text(self.cmd, self.args.deep_view().subrange(0, i as int)),
            decreases self.args.len() - i,
        {
            out.push(' ');
            push_str(&mut out, self.args[i].as_str());
            assert(self.args.deep_view().subrange(0, i + 1).drop_last()
                == self.args.deep_view().subrange(0, i as int));
            i = i + 1;
        }
        assert(self.args.deep_view().subrange(0, self.args.len() as int)
            == self.args.deep_view());
        out
    }

    /// Reads a wire line back into a request.
    pub fn deserialize(data: &str) -> (r: Self)
        ensures
            (r.cmd, r.args.deep_view()) == request_of(data@),
    {
        let v = chars_of(data);
        let pieces = split_chars(v.as_slice(), ' ');
        assert(views(pieces@).len() == pieces@.len());
        let cmd = command_from_chars(pieces[0].as_slice());
        let mut rest: Vec<Vec<char>> = Vec::new();
        let mut i: usize = 1;
        while i < pieces.len()
            invariant
                1 <= i <= pieces.len(),
                views(rest@) == views(pieces@).subrange(1, i as int),
            decreases pieces.len() - i,
        {
            let ghost old_rest = views(rest@);
            let p = copy_range(pieces[i].as_slice(), 0, pieces[i].len());
            assert(p@ == views(pieces@)[i as int]);
            rest.push(p);
            assert(views(rest@) =~= old_rest.push(views(pieces@)[i as int]));
            assert(views(pieces@).subrange(1, i + 1) =~= views(pieces@).subrange(1, i as int).push(
                views(pieces@)[i as int],
            ));
            i = i + 1;
        }
        assert(views(pieces@).subrange(1, pieces.len() as int) =~= views(pieces@).drop_first());
        let kept = keep_nonempty(rest);
        let args = strings_from(&kept);
        Request { cmd, args }
    }
}

/// No command word holds a space.
pub proof fn lemma_command_text_has_no_space(c: Command)
    ensures
        !command_text(c).contains(' '),
{
    reveal_strlit("AUTH_REQUEST");
    reveal_strlit("ADD_USER");
    reveal_strlit("TRAIN_USER");
    reveal_strlit("TEST_AUTH");
    reveal_strlit("SET_LABEL");
    reveal_strlit("TRAIN_NEW");
    reveal_strlit("LIST_EMBEDDINGS");
    reveal_strlit("REMOVE_EMBEDDING");
    reveal_strlit("GET_CONFIG");
    reveal_strlit("SET_LOG_LEVEL");
    reveal_strlit("GET_LOG_LEVEL");
    reveal_strlit("GET_VERSION");
    reveal_strlit("UNKNOWN");
}

/// Reading a command's own word gives that command back.
pub proof fn lemma_command_roundtrip(c: Command)
    ensures
        command_of(command_text(c)) == c,
{
    reveal_strlit("AUTH_REQUEST");
    reveal_strlit("ADD_USER");
    reveal_strlit("TRAIN_USER");
    reveal_strlit("TEST_AUTH");
    reveal_strlit("SET_LABEL");
    reveal_strlit("TRAIN_NEW");
    reveal_strlit("LIST_EMBEDDINGS");
    reveal_strlit("REMOVE_EMBEDDING");
    reveal_strlit("GET_CONFIG");
    reveal_strlit("SET_LOG_LEVEL");
    reveal_strlit("GET_LOG_LEVEL");
    reveal_strlit("GET_VERSION");
    reveal_strlit("UNKNOWN");
    lemma_command_texts_differ();
}

proof fn lemma_command_texts_differ()
    ensures
        "AUTH_REQUEST"@ != "ADD_USER"@,
        "AUTH_REQUEST"@ != "TRAIN_USER"@,
        "AUTH_REQUEST"@ != "TEST_AUTH"@,
        "AUTH_REQUEST"@ != "SET_LABEL"@,
        "AUTH_REQUEST"@ != "TRAIN_NEW"@,
        "AUTH_REQUEST"@ != "LIST_EMBEDDINGS"@,
        "AUTH_REQUEST"@ != "REMOVE_EMBEDDING"@,
        "AUTH_REQUEST"@ != "GET_CONFIG"@,
        "AUTH_REQUEST"@ != "SET_LOG_LEVEL"@,
        "AUTH_REQUEST"@ != "GET_LOG_LEVEL"@,
        "AUTH_REQUEST"@ != "GET_VERSION"@,
        "AUTH_REQUEST"@ != "UNKNOWN"@,
        "ADD_USER"@ != "TRAIN_USER"@,
        "ADD_USER"@ != "TEST_AUTH"@,
        "ADD_USER"@ != "SET_LABEL"@,
        "ADD_USER"@ != "TRAIN_NEW"@,
        "ADD_USER"@ != "LIST_EMBEDDINGS"@,
        "ADD_USER"@ != "REMOVE_EMBEDDING"@,
        "ADD_USER"@ != "GET_CONFIG"@,
        "ADD_USER"@ != "SET_LOG_LEVEL"@,
        "ADD_USER"@ != "GET_LOG_LEVEL"@,
        "ADD_USER"@ != "GET_VERSION"@,
        "ADD_USER"@ != "UNKNOWN"@,
        "TRAIN_USER"@ != "TEST_AUTH"@,
        "TRAIN_USER"@ != "SET_LABEL"@,
        "TRAIN_USER"@ != "TRAIN_NEW"@,
        "TRAIN_USER"@ != "LIST_EMBEDDINGS"@,
        "TRAIN_USER"@ != "REMOVE_EMBEDDING"@,
        "TRAIN_USER"@ != "GET_CONFIG"@,
        "TRAIN_USER"@ != "SET_LOG_LEVEL"@,
        "TRAIN_USER"@ != "GET_LOG_LEVEL"@,
        "TRAIN_USER"@ != "GET_VERSION"@,
        "TRAIN_USER"@ != "UNKNOWN"@,
        "TEST_AUTH"@ != "SET_LABEL"@,
        "TEST_AUTH"@ != "TRAIN_NEW"@,
        "TEST_AUTH"@ != "LIST_EMBEDDINGS"@,
        "TEST_AUTH"@ != "REMOVE_EMBEDDING"@,
        "TEST_AUTH"@ != "GET_CONFIG"@,
        "TEST_AUTH"@ != "SET_LOG_LEVEL"@,
        "TEST_AUTH"@ != "GET_LOG_LEVEL"@,
        "TEST_AUTH"@ != "GET_VERSION"@,
        "TEST_AUTH"@ != "UNKNOWN"@,
        "SET_LABEL"@ != "TRAIN_NEW"@,
        "SET_LABEL"@ != "LIST_EMBEDDINGS"@,
        "SET_LABEL"@ != "REMOVE_EMBEDDING"@,
        "SET_LABEL"@ != "GET_CONFIG"@,
        "SET_LABEL"@ != "SET_LOG_LEVEL"@,
        "SET_LABEL"@ != "GET_LOG_LEVEL"@,
        "SET_LABEL"@ != "GET_VERSION"@,
        "SET_LABEL"@ != "UNKNOWN"@,
        "TRAIN_NEW"@ != "LIST_EMBEDDINGS"@,
        "TRAIN_NEW"@ != "REMOVE_EMBEDDING"@,
        "TRAIN_NEW"@ != "GET_CONFIG"@,
        "TRAIN_NEW"@ != "SET_LOG_LEVEL"@,
        "TRAIN_NEW"@ != "GET_LOG_LEVEL"@,
        "TRAIN_NEW"@ != "GET_VERSION"@,
        "TRAIN_NEW"@ != "UNKNOWN"@,
        "LIST_EMBEDDINGS"@ != "REMOVE_EMBEDDING"@,
        "LIST_EMBEDDINGS"@ != "GET_CONFIG"@,
        "LIST_EMBEDDINGS"@ != "SET_LOG_LEVEL"@,
        "LIST_EMBEDDINGS"@ != "GET_LOG_LEVEL"@,
        "LIST_EMBEDDINGS"@ != "GET_VERSION"@,
        "LIST_EMBEDDINGS"@ != "UNKNOWN"@,
        "REMOVE_EMBEDDING"@ != "GET_CONFIG"@,
        "REMOVE_EMBEDDING"@ != "SET_LOG_LEVEL"@,
        "REMOVE_EMBEDDING"@ != "GET_LOG_LEVEL"@,
        "REMOVE_EMBEDDING"@ != "GET_VERSION"@,
        "REMOVE_EMBEDDING"@ != "UNKNOWN"@,
        "GET_CONFIG"@ != "SET_LOG_LEVEL"@,
        "GET_CONFIG"@ != "GET_LOG_LEVEL"@,
        "GET_CONFIG"@ != "GET_VERSION"@,
        "GET_CONFIG"@ != "UNKNOWN"@,
        "SET_LOG_LEVEL"@ != "GET_LOG_LEVEL"@,
        "SET_LOG_LEVEL"@ != "GET_VERSION"@,
        "SET_LOG_LEVEL"@ != "UNKNOWN"@,
        "GET_LOG_LEVEL"@ != "GET_VERSION"@,
        "GET_LOG_LEVEL"@ != "UNKNOWN"@,
        "GET_VERSION"@ != "UNKNOWN"@,
{
    reveal_strlit("AUTH_REQUEST");
    reveal_strlit("ADD_USER");
    reveal_strlit("TRAIN_USER");
    reveal_strlit("TEST_AUTH");
    reveal_strlit("SET_LABEL");
    reveal_strlit("TRAIN_NEW");
    reveal_strlit("LIST_EMBEDDINGS");
    reveal_strlit("REMOVE_EMBEDDING");
    reveal_strlit("GET_CONFIG");
    reveal_strlit("SET_LOG_LEVEL");
    reveal_strlit("GET_LOG_LEVEL");
    reveal_strlit("GET_VERSION");
    reveal_strlit("UNKNOWN");
    assert("AUTH_REQUEST"@.len() == 12);
    assert("ADD_USER"@.len() == 8);
    assert("TRAIN_USER"@.len() == 10);
    assert("TEST_AUTH"@.len() == 9);
    assert("SET_LABEL"@.len() == 9);
    assert("TRAIN_NEW"@.len() == 9);
    assert("LIST_EMBEDDINGS"@.len() == 15);
    assert("REMOVE_EMBEDDING"@.len() == 16);
    assert("GET_CONFIG"@.len() == 10);
    assert("SET_LOG_LEVEL"@.len() == 13);
    assert("GET_LOG_LEVEL"@.len() == 13);
    assert("GET_VERSION"@.len() == 11);
    assert("UNKNOWN"@.len() == 7);
    assert("TRAIN_USER"@[0] != "GET_CONFIG"@[0]);
    assert("TEST_AUTH"@[0] != "SET_LABEL"@[0]);
    assert("TRAIN_NEW"@[0] != "SET_LABEL"@[0]);
    assert("TEST_AUTH"@[1] != "TRAIN_NEW"@[1]);
    assert("SET_LOG_LEVEL"@[0] != "GET_LOG_LEVEL"@[0]);
}

proof fn lemma_split_append_plain(x: Seq<char>, w: Seq<char>, d: char)
    requires
        !w.contains(d),
    ensures
        split_state(x + w, d) == (split_state(x, d).0, split_state(x, d).1 + w),
    decreases w.len(),
{
    if w.len() == 0 {
        assert(x + w == x);
        assert(split_state(x, d).1 + w == split_state(x, d).1);
    } else {
        assert((x + w).drop_last() == x + w.drop_last());
        assert(!w.drop_last().contains(d)) by {
            if w.drop_last().contains(d) {
                let k = choose|k: int| 0 <= k < w.drop_last().len() && w.drop_last()[k] == d;
                assert(w[k] == d);
            }
        }
        lemma_split_append_plain(x, w.drop_last(), d);
        assert(w.last() != d) by {
            assert(w[w.len() - 1] == w.last());
        }
        assert(split_state(x, d).1 + w.drop_last() + seq![w.last()] == split_state(x, d).1 + w);
    }
}

proof fn lemma_split_request_text(cmd: Command, args: Seq<Seq<char>>)
    requires
        forall|i: int| 0 <= i < args.len() ==> !(#[trigger] args[i]).contains(' '),
    ensures
        split_seq(request_text(cmd, args), ' ') == seq![command_text(cmd)] + args,
    decreases args.len(),
{
    lemma_command_text_has_no_space(cmd);
    if args.len() == 0 {
        lemma_split_append_plain(Seq::empty(), command_text(cmd), ' ');
        assert(Seq::<char>::empty() + command_text(cmd) == command_text(cmd));
        assert(Seq::<char>::empty() + command_text(cmd) == command_text(cmd));
        assert(seq![command_text(cmd)] + args == seq![command_text(cmd)]);
    } else {
        let prev = args.drop_last();
        assert forall|i: int| 0 <= i < prev.len() implies !(#[trigger] prev[i]).contains(' ') by {
            assert(prev[i] == args[i]);
        }
        lemma_split_request_text(cmd, prev);
        let t = request_text(cmd, prev);
        let st = split_state(t, ' ');
        assert(st.0.push(st.1) == seq![command_text(cmd)] + prev);
        let tp = t.push(' ');
        assert(tp.drop_last() == t);
        assert(split_state(tp, ' ') == (st.0.push(st.1), Seq::<char>::empty()));
        assert(args[args.len() - 1] == args.last());
        lemma_split_append_plain(tp, args.last(), ' ');
        assert(Seq::<char>::empty() + args.last() == args.last());
        assert((seq![command_text(cmd)] + prev).push(args.last()) == seq![command_text(cmd)]
            + args);
    }
}

proof fn lemma_nonempty_all(ps: Seq<Seq<char>>)
    requires
        forall|i: int| 0 <= i < ps.len() ==> (#[trigger] ps[i]).len() > 0,
    ensures
        nonempty(ps) == ps,
    decreases ps.len(),
{
    if ps.len() > 0 {
        let prev = ps.drop_last();
        assert forall|i: int| 0 <= i < prev.len() implies (#[trigger] prev[i]).len() > 0 by {
            assert(prev[i] == ps[i]);
        }
        lemma_nonempty_all(prev);
        assert(ps[ps.len() - 1] == ps.last());
        assert(prev.push(ps.last()) == ps);
    }
}

/// A request whose arguments are non-empty and free of spaces is read back
/// exactly as it was written.
pub proof fn lemma_request_roundtrip(cmd: Command, args: Seq<Seq<char>>)
    requires
        forall|i: int| 0 <= i < args.len() ==> (#[trigger] args[i]).len() > 0 && !args[i].contains(' '),
    ensures
        request_of(request_text(cmd, args)) == (cmd, args),
{
    lemma_split_request_text(cmd, args);
    let pieces = seq![command_text(cmd)] + args;
    assert(pieces[0] == command_text(cmd));
    assert(pieces.drop_first() == args);
    lemma_command_roundtrip(cmd);
    lemma_nonempty_all(args);
}

} // verus!
