//! The PAM module's settings, read from the daemon's INI file.
use vstd::prelude::*;

use crate::constants::DEFAULT_MIN_UID;
use crate::ini::{
    has_section, kv_lookup, lemma_section_at, section_entries, sorted_names, IniData,
};
use crate::text::{
    chars_eq_str, chars_of, copy_range, find_char, find_char_index, keep_nonempty,
    lemma_find_char_found, nonempty, parse_u32, parse_u32_spec, split_chars, split_seq,
    string_from_chars, string_from_str, strings_from, trim_chars, trim_range, trim_seq, views,
};

verus! {

/// What the PAM module needs to know.
#[derive(Debug, PartialEq, Eq)]
pub struct PamConfig {
    pub min_uid: u32,
    pub require_confirmation: bool,
    pub confirmation_exempt_services: Vec<String>,
    pub show_welcome: bool,
    pub welcome_message: String,
}

/// The services that skip the confirmation prompt unless configured otherwise.
pub open spec fn default_exempt_services() -> Seq<Seq<char>> {
    seq![
        "gdm-password"@,
        "sddm"@,
        "lightdm"@,
        "login"@,
        "swaylock"@,
        "i3lock"@,
        "xscreensaver"@,
        "kscreenlocker"@,
        "kde"@,
        "systemd-user"@,
    ]
}

/// The welcome message unless configured otherwise; `%u` stands for the user.
pub open spec fn default_welcome_message() -> Seq<char> {
    "LinuxCamPAM: Welcome, %u!"@
}

fn push_string(v: &mut Vec<String>, s: &str)
    ensures
        final(v).deep_view() == old(v).deep_view().push(s@),
{
    let ghost old_v = v.deep_view();
    v.push(string_from_str(s));
    assert(v.deep_view() =~= old_v.push(s@));
}

impl Default for PamConfig {
    fn default() -> (r: Self)
        ensures
            r.min_uid == DEFAULT_MIN_UID,
            r.require_confirmation,
            r.confirmation_exempt_services.deep_view() == default_exempt_services(),
            r.show_welcome,
            r.welcome_message@ == default_welcome_message(),
    {
        let mut services: Vec<String> = Vec::new();
        push_string(&mut services, "gdm-password");
        push_string(&mut services, "sddm");
        push_string(&mut services, "lightdm");
        push_string(&mut services, "login");
        push_string(&mut services, "swaylock");
        push_string(&mut services, "i3lock");
        push_string(&mut services, "xscreensaver");
        push_string(&mut services, "kscreenlocker");
        push_string(&mut services, "kde");
        push_string(&mut services, "systemd-user");
        assert(services.deep_view() =~= default_exempt_services());
        PamConfig {
            min_uid: DEFAULT_MIN_UID,
            require_confirmation: true,
            confirmation_exempt_services: services,
            show_welcome: true,
            welcome_message: string_from_str("LinuxCamPAM: Welcome, %u!"),
        }
    }
}

/// The reading state: the section being read and the pairs read so far.
pub struct PamConfigState {
    pub current_section: String,
    pub data: IniData,
}

impl Default for PamConfigState {
    fn default() -> (r: Self)
        ensures
            r.current_section@ == Seq::<char>::empty(),
            r.data.wf(),
            r.data.view().len() == 0,
    {
        PamConfigState { current_section: String::new(), data: IniData::new() }
    }
}

/// The text without the white space at either end, as `str::trim` gives it.
pub fn trim(s: &str) -> (r: &str)
    ensures
        r@ == trim_seq(s@),
{
    crate::text::trim_str(s)
}

/// Each piece of `ps`, trimmed.
pub open spec fn trim_all(ps: Seq<Seq<char>>) -> Seq<Seq<char>> {
    Seq::new(ps.len(), |i: int| trim_seq(ps[i]))
}

/// The trimmed, non-empty pieces of `s` between occurrences of `d`.
pub open spec fn split_trimmed(s: Seq<char>, d: char) -> Seq<Seq<char>> {
    nonempty(trim_all(split_seq(s, d)))
}

/// Splits `s` at each `delimiter`, trims the pieces and keeps the non-empty ones.
pub fn split(s: &str, delimiter: char) -> (r: Vec<String>)
    ensures
        r.deep_view() == split_trimmed(s@, delimiter),
{
    let v = chars_of(s);
    let pieces = split_chars(v.as_slice(), delimiter);
    let mut trimmed: Vec<Vec<char>> = Vec::new();
    let mut i: usize = 0;
    while i < pieces.len()
        invariant
            i <= pieces.len(),
            views(trimmed@) == trim_all(views(pieces@)).subrange(0, i as int),
        decreases pieces.len() - i,
    {
        let ghost old_t = views(trimmed@);
        let t = trim_chars(pieces[i].as_slice());
        trimmed.push(t);
        assert(views(trimmed@) =~= old_t.push(trim_all(views(pieces@))[i as int]));
        assert(trim_all(views(pieces@)).subrange(0, i + 1) =~= trim_all(views(pieces@)).subrange(
            0,
            i as int,
        ).push(trim_all(views(pieces@))[i as int]));
        i = i + 1;
    }
    assert(trim_all(views(pieces@)).subrange(0, pieces.len() as int) =~= trim_all(views(pieces@)));
    let kept = keep_nonempty(trimmed);
    strings_from(&kept)
}

/// Whether a trimmed line is empty or a comment.
pub open spec fn is_skipped(sv: Seq<char>) -> bool {
    sv.len() == 0 || sv[0] == ';' || sv[0] == '#'
}

/// The section that a line opens, if it is a `[name]` header.
pub open spec fn pam_header(line: Seq<char>) -> Option<Seq<char>> {
    let sv = trim_seq(line);
    if !is_skipped(sv) && sv[0] == '[' && sv.last() == ']' {
        Some(sv.subrange(1, sv.len() - 1))
    } else {
        None
    }
}

/// The pair that a `key = value` line holds: both sides trimmed, at the first `=`,
/// with a non-empty key.
pub open spec fn pam_pair(line: Seq<char>) -> Option<(Seq<char>, Seq<char>)> {
    let sv = trim_seq(line);
    if is_skipped(sv) || (sv[0] == '[' && sv.last() == ']') {
        None
    } else {
        match find_char(sv, '=') {
            Some(e) => {
                let key = trim_seq(sv.subrange(0, e));
                let val = trim_seq(sv.subrange(e + 1, sv.len() as int));
                if key.len() > 0 {
                    Some((key, val))
                } else {
                    None
                }
            },
            None => None,
        }
    }
}

/// `new` is `old` with `k` set to `v` in the section `name`.
pub open spec fn ini_inserted(
    old: Seq<(Seq<char>, Seq<(Seq<char>, Seq<char>)>)>,
    new: Seq<(Seq<char>, Seq<(Seq<char>, Seq<char>)>)>,
    name: Seq<char>,
    k: Seq<char>,
    v: Seq<char>,
) -> bool {
    &&& sorted_names(new)
    &&& forall|n: Seq<char>| #[trigger] has_section(new, n) <==> has_section(old, n) || n == name
    &&& forall|n: Seq<char>| #[trigger] section_entries(new, n) == if n == name {
        section_entries(old, n).push((k, v))
    } else {
        section_entries(old, n)
    }
}

/// Reads one line of the settings file into `state`.
pub fn process_pam_config_line(line: &str, state: &mut PamConfigState)
    requires
        old(state).data.wf(),
    ensures
        final(state).data.wf(),
        match pam_header(line@) {
            Some(h) => final(state).current_section@ == h && final(state).data.view() == old(state).data.view(),
            None => final(state).current_section@ == old(state).current_section@,
        },
        match pam_pair(line@) {
            Some((k, v)) => ini_inserted(old(state).data.view(), final(state).data.view(), old(state).current_section@, k, v),
            None => final(state).data.view() == old(state).data.view(),
        },
{
    let lv = chars_of(line);
    let sv = trim_chars(lv.as_slice());
    if sv.len() == 0 || sv[0] == ';' || sv[0] == '#' {
        return;
    }
    if sv[0] == '[' && sv[sv.len() - 1] == ']' {
        assert(sv@.last() == sv@[sv.len() - 1]);
        let name = copy_range(sv.as_slice(), 1, sv.len() - 1);
        state.current_section = string_from_chars(name.as_slice());
        return;
    }
    assert(!(sv@[0] == '[' && sv@.last() == ']'));
    match find_char_index(sv.as_slice(), '=') {
        Some(eq_pos) => {
            proof {
                lemma_find_char_found(sv@, '=');
            }
            let kpart = copy_range(sv.as_slice(), 0, eq_pos);
            let vpart = copy_range(sv.as_slice(), eq_pos + 1, sv.len());
            let key = trim_chars(kpart.as_slice());
            let val = trim_chars(vpart.as_slice());
            if key.len() > 0 {
                let sec = chars_of(state.current_section.as_str());
                state.data.insert(sec.as_slice(), key.as_slice(), val.as_slice());
            }
        },
        None => {},
    }
}

/// Among the sections other than `Security`, in order, the value of the first that has `key`.
pub open spec fn first_other(secs: Seq<(Seq<char>, Seq<(Seq<char>, Seq<char>)>)>, key: Seq<char>) -> Option<Seq<char>>
    decreases secs.len(),
{
    if secs.len() == 0 {
        None
    } else if secs[0].0 != "Security"@ && kv_lookup(secs[0].1, key) is Some {
        kv_lookup(secs[0].1, key)
    } else {
        first_other(secs.drop_first(), key)
    }
}

/// The value of a setting: from the `Security` section if it has it, else from
/// the first other section (by name) that has it.
pub open spec fn pam_get(secs: Seq<(Seq<char>, Seq<(Seq<char>, Seq<char>)>)>, key: Seq<char>) -> Option<Seq<char>> {
    let sec = kv_lookup(section_entries(secs, "Security"@), key);
    if sec is Some {
        sec
    } else {
        first_other(secs, key)
    }
}

fn get_value(data: &IniData, key: &str) -> (r: Option<String>)
    requires
        data.wf(),
    ensures
        match r {
            Some(s) => pam_get(data.view(), key@) == Some(s@),
            None => pam_get(data.view(), key@) is None,
        },
{
    let ghost secs = data.view();
    let kc = chars_of(key);
    let n = data.len();
    let mut i: usize = 0;
    while i < n
        invariant
            n == secs.len(),
            secs == data.view(),
            sorted_names(secs),
            i <= n,
            kc@ == key@,
            forall|k: int| 0 <= k < i ==> secs[k].0 != "Security"@ || kv_lookup(secs[k].1, key@) is None,
        decreases n - i,
    {
        let name = data.name_at(i);
        let nc = chars_of(name.as_str());
        if chars_eq_str(nc.as_slice(), "Security") {
            proof {
                lemma_section_at(secs, i as int);
            }
            match data.get_at(i, kc.as_slice()) {
                Some(v) => {
                    return Some(v);
                },
                None => {},
            }
        }
        i = i + 1;
    }
    assert(kv_lookup(section_entries(secs, "Security"@), key@) is None) by {
        if has_section(secs, "Security"@) {
            let j = choose|j: int| 0 <= j < secs.len() && (#[trigger] secs[j]).0 == "Security"@;
            lemma_section_at(secs, j);
        }
    }
    let mut i: usize = 0;
    assert(secs.subrange(0, n as int) == secs);
    while i < n
        invariant
            n == secs.len(),
            secs == data.view(),
            i <= n,
            kc@ == key@,
            first_other(secs, key@) == first_other(secs.subrange(i as int, n as int), key@),
            kv_lookup(section_entries(secs, "Security"@), key@) is None,
        decreases n - i,
    {
        assert(secs.subrange(i as int, n as int).drop_first() == secs.subrange(i + 1, n as int));
        assert(secs.subrange(i as int, n as int)[0] == secs[i as int]);
        let name = data.name_at(i);
        let nc = chars_of(name.as_str());
        if !chars_eq_str(nc.as_slice(), "Security") {
            match data.get_at(i, kc.as_slice()) {
                Some(v) => {
                    return Some(v);
                },
                None => {},
            }
        }
        i = i + 1;
    }
    None
}

/// Whether a setting's text means "on".
pub open spec fn is_yes(s: Seq<char>) -> bool {
    s == "true"@ || s == "1"@ || s == "yes"@
}

/// The text without one pair of surrounding double quotes, if it has them.
pub open spec fn unquote(s: Seq<char>) -> Seq<char> {
    if s.len() >= 2 && s[0] == '"' && s.last() == '"' {
        s.subrange(1, s.len() - 1)
    } else {
        s
    }
}

/// The user id below which face authentication is skipped: a setting that is
/// non-empty, has no leading `-` and reads as a `u32`; else the default.
pub open spec fn resolved_min_uid(v: Option<Seq<char>>) -> u32 {
    match v {
        Some(s) => if s.len() > 0 && s[0] != '-' && parse_u32_spec(s) is Some {
            parse_u32_spec(s).unwrap()
        } else {
            DEFAULT_MIN_UID
        },
        None => DEFAULT_MIN_UID,
    }
}

fn is_yes_chars(s: &[char]) -> (r: bool)
    ensures
        r == is_yes(s@),
{
    chars_eq_str(s, "true") || chars_eq_str(s, "1") || chars_eq_str(s, "yes")
}

fn unquote_chars(s: &[char]) -> (r: Vec<char>)
    ensures
        r@ == unquote(s@),
{
    if s.len() >= 2 && s[0] == '"' && s[s.len() - 1] == '"' {
        assert(s@.last() == s@[s.len() - 1]);
        copy_range(s, 1, s.len() - 1)
    } else {
        copy_range(s, 0, s.len())
    }
}

/// The settings that the read pairs give, with a default for each one missing.
pub fn resolve_pam_config(state: &PamConfigState) -> (config: PamConfig)
    requires
        state.data.wf(),
    ensures
        config.min_uid == resolved_min_uid(pam_get(state.data.view(), "min_uid"@)),
        config.require_confirmation == match pam_get(state.data.view(), "require_confirmation"@) {
            Some(s) => is_yes(s),
            None => true,
        },
        config.confirmation_exempt_services.deep_view() == match pam_get(
            state.data.view(),
            "confirmation_exempt_services"@,
        ) {
            Some(s) => split_trimmed(unquote(s), ','),
            None => default_exempt_services(),
        },
        config.show_welcome == match pam_get(state.data.view(), "show_welcome"@) {
            Some(s) => is_yes(s),
            None => true,
        },
        config.welcome_message@ == match pam_get(state.data.view(), "welcome_message"@) {
            Some(s) => unquote(s),
            None => default_welcome_message(),
        },
{
    let mut config = PamConfig::default();
    match get_value(&state.data, "min_uid") {
        Some(uid_str) => {
            let u = chars_of(uid_str.as_str());
            if u.len() > 0 && u[0] != '-' {
                match parse_u32(u.as_slice()) {
                    Some(parsed) => {
                        config.min_uid = parsed;
                    },
                    None => {},
                }
            }
        },
        None => {},
    }
    match get_value(&state.data, "require_confirmation") {
        Some(rc) => {
            let c = chars_of(rc.as_str());
            config.require_confirmation = is_yes_chars(c.as_slice());
        },
        None => {},
    }
    match get_value(&state.data, "confirmation_exempt_services") {
        Some(ces) => {
            let c = chars_of(ces.as_str());
            let u = unquote_chars(c.as_slice());
            let us = string_from_chars(u.as_slice());
            config.confirmation_exempt_services = split(us.as_str(), ',');
        },
        None => {},
    }
    match get_value(&state.data, "show_welcome") {
        Some(sw) => {
            let c = chars_of(sw.as_str());
            config.show_welcome = is_yes_chars(c.as_slice());
        },
        None => {},
    }
    match get_value(&state.data, "welcome_message") {
        Some(wm) => {
            let c = chars_of(wm.as_str());
            let u = unquote_chars(c.as_slice());
            config.welcome_message = string_from_chars(u.as_slice());
        },
        None => {},
    }
    config
}

} // verus!
