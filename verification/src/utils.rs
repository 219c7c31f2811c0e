//! Checks and small computations used across the daemon: user names, model
//! versions, camera classification, poll deadlines and command lines.
use vstd::prelude::*;

use crate::constants::MAX_USERNAME_LENGTH;
use crate::hardware_manager::{utf8_len, utf8_len_up_to};
use crate::text::{
    chars_eq_str, chars_lt, chars_of, copy_range, has_prefix, is_ascii_alnum,
    is_ascii_alnum_char, is_control, is_control_char, is_ws, is_ws_char, lemma_seq_lt_asymmetric,
    lemma_seq_lt_total, lemma_seq_lt_transitive, nonempty, seq_lt, split_chars, split_seq,
    starts_with, string_from_chars, string_from_str, views,
};

verus! {

pub const V4L2_CAP_VIDEO_CAPTURE: u32 = 0x00000001;

pub const V4L2_BUF_TYPE_VIDEO_CAPTURE: u32 = 1;

pub const V4L2_PIX_FMT_GREY: u32 = 0x59455247;

pub const V4L2_PIX_FMT_Y10: u32 = 0x20303159;

pub const V4L2_PIX_FMT_Y12: u32 = 0x20323159;

pub const V4L2_PIX_FMT_Y16: u32 = 0x20363159;

pub const V4L2_PIX_FMT_MJPEG: u32 = 0x47504a4d;

pub const V4L2_PIX_FMT_YUYV: u32 = 0x56595559;

pub const V4L2_PIX_FMT_UYVY: u32 = 0x59565955;

pub const V4L2_PIX_FMT_NV12: u32 = 0x3231564e;

pub const V4L2_PIX_FMT_RGB24: u32 = 0x33424752;

pub const V4L2_PIX_FMT_BGR24: u32 = 0x33524742;

pub const V4L2_MEMORY_MMAP: u32 = 1;

pub const V4L2_CID_EXPOSURE_AUTO: u32 = 0x009a0901;

pub const V4L2_CID_EXPOSURE_ABSOLUTE: u32 = 0x9a0902;

pub const V4L2_CTRL_FLAG_DISABLED: u32 = 0x0001;

/// Characters allowed in a user name.
pub open spec fn username_char(c: char) -> bool {
    is_ascii_alnum(c) || c == '_' || c == '.' || c == '-' || c == '$'
}

/// Whether `s` holds two dots in a row.
pub open spec fn has_double_dot(s: Seq<char>) -> bool {
    exists|i: int| 0 <= i < s.len() - 1 && #[trigger] s[i] == '.' && s[i + 1] == '.'
}

/// A user name that is safe to use in file names: 1 to 32 characters (bytes,
/// as all are ASCII), not starting with a dot, without two dots in a row, made
/// of ASCII letters and digits and `_ . - $`.
pub open spec fn valid_username(s: Seq<char>) -> bool {
    &&& s.len() > 0
    &&& s.len() <= MAX_USERNAME_LENGTH
    &&& s[0] != '.'
    &&& !has_double_dot(s)
    &&& forall|i: int| 0 <= i < s.len() ==> username_char(#[trigger] s[i])
}

pub fn is_valid_username(username: &str) -> (r: bool)
    ensures
        r == valid_username(username@),
{
    let c = chars_of(username);
    if c.len() == 0 || c.len() > MAX_USERNAME_LENGTH {
        return false;
    }
    if c[0] == '.' {
        return false;
    }
    let mut i: usize = 0;
    while i < c.len() - 1
        invariant
            i <= c.len(),
            c.len() > 0,
            c@ == username@,
            forall|k: int| 0 <= k < i && k < c.len() - 1 ==> !(#[trigger] c@[k] == '.' && c@[k + 1] == '.'),
        decreases c.len() - i,
    {
        if c[i] == '.' && c[i + 1] == '.' {
            assert(c@[i as int] == '.' && c@[i + 1] == '.');
            return false;
        }
        i = i + 1;
    }
    assert(!has_double_dot(c@));
    let mut j: usize = 0;
    while j < c.len()
        invariant
            j <= c.len(),
            c@ == username@,
            forall|k: int| 0 <= k < j ==> username_char(#[trigger] c@[k]),
        decreases c.len() - j,
    {
        let ch = c[j];
        if !(is_ascii_alnum_char(ch) || ch == '_' || ch == '.' || ch == '-' || ch == '$') {
            assert(!username_char(c@[j as int]));
            return false;
        }
        j = j + 1;
    }
    true
}

/// The last component of a path, as `Path::file_name` gives it: pieces between
/// slashes, without empty pieces and `.`; none when nothing is left or the last
/// piece is `..`.
pub open spec fn path_file_name(p: Seq<char>) -> Option<Seq<char>> {
    let comps = no_dots(nonempty(split_seq(p, '/')));
    if comps.len() == 0 || comps.last() == ".."@ {
        None
    } else {
        Some(comps.last())
    }
}

/// The pieces other than `.`, in order.
pub open spec fn no_dots(ps: Seq<Seq<char>>) -> Seq<Seq<char>>
    decreases ps.len(),
{
    if ps.len() == 0 {
        Seq::empty()
    } else if ps.last() == "."@ {
        no_dots(ps.drop_last())
    } else {
        no_dots(ps.drop_last()).push(ps.last())
    }
}

/// The index of the last `c` in `s`, if any.
pub open spec fn rfind_char(s: Seq<char>, c: char) -> Option<int>
    decreases s.len(),
{
    if s.len() == 0 {
        None
    } else if s.last() == c {
        Some(s.len() - 1)
    } else {
        rfind_char(s.drop_last(), c)
    }
}

/// A file name without its extension, as `Path::file_stem` gives it: the part
/// before the last dot, unless that dot is the first character or the name is `..`.
pub open spec fn name_stem(name: Seq<char>) -> Seq<char> {
    if name == ".."@ {
        name
    } else {
        match rfind_char(name, '.') {
            Some(i) => if i == 0 {
                name
            } else {
                name.subrange(0, i)
            },
            None => name,
        }
    }
}

/// The version tag of a recognition model file: its stem without the
/// `face_recognition_` prefix, if it has it.
pub open spec fn model_version(path: Seq<char>) -> Seq<char> {
    let stem = match path_file_name(path) {
        Some(n) => name_stem(n),
        None => Seq::empty(),
    };
    if has_prefix(stem, "face_recognition_"@) {
        stem.subrange("face_recognition_"@.len() as int, stem.len() as int)
    } else {
        stem
    }
}

fn drop_dot_pieces(ps: &Vec<Vec<char>>) -> (r: Vec<Vec<char>>)
    ensures
        views(r@) == no_dots(views(ps@)),
{
    let mut out: Vec<Vec<char>> = Vec::new();
    let mut i: usize = 0;
    let ghost pv = views(ps@);
    while i < ps.len()
        invariant
            i <= ps.len(),
            pv == views(ps@),
            views(out@) == no_dots(pv.subrange(0, i as int)),
        decreases ps.len() - i,
    {
        assert(pv.subrange(0, i + 1).drop_last() == pv.subrange(0, i as int));
        let ghost old_out = views(out@);
        if !chars_eq_str(ps[i].as_slice(), ".") {
            let p = copy_range(ps[i].as_slice(), 0, ps[i].len());
            assert(p@ == pv[i as int]);
            out.push(p);
            assert(views(out@) =~= old_out.push(pv[i as int]));
        }
        i = i + 1;
    }
    assert(pv.subrange(0, pv.len() as int) == pv);
    out
}

fn rfind_index(s: &[char], c: char) -> (r: Option<usize>)
    ensures
        match r {
            Some(i) => rfind_char(s@, c) == Some(i as int),
            None => rfind_char(s@, c) is None,
        },
{
    let mut i = s.len();
    assert(s@.subrange(0, i as int) == s@);
    while i > 0
        invariant
            i <= s.len(),
            rfind_char(s@, c) == rfind_char(s@.subrange(0, i as int), c),
        decreases i,
    {
        assert(s@.subrange(0, i as int).last() == s@[i - 1]);
        assert(s@.subrange(0, i as int).drop_last() == s@.subrange(0, i - 1));
        if s[i - 1] == c {
            return Some(i - 1);
        }
        i = i - 1;
    }
    None
}

proof fn lemma_rfind_char_bound(s: Seq<char>, c: char)
    ensures
        rfind_char(s, c) matches Some(i) ==> 0 <= i < s.len(),
    decreases s.len(),
{
    if s.len() > 0 && s.last() != c {
        lemma_rfind_char_bound(s.drop_last(), c);
    }
}

fn file_name_of(p: &[char]) -> (r: Option<Vec<char>>)
    ensures
        match r {
            Some(n) => path_file_name(p@) == Some(n@),
            None => path_file_name(p@) is None,
        },
{
    let pieces = split_chars(p, '/');
    let kept = crate::text::keep_nonempty(pieces);
    let comps = drop_dot_pieces(&kept);
    if comps.len() == 0 {
        return None;
    }
    let last = &comps[comps.len() - 1];
    assert(views(comps@).last() == last@);
    if chars_eq_str(last.as_slice(), "..") {
        None
    } else {
        Some(copy_range(last.as_slice(), 0, last.len()))
    }
}

fn stem_of(name: &[char]) -> (r: Vec<char>)
    ensures
        r@ == name_stem(name@),
{
    if chars_eq_str(name, "..") {
        return copy_range(name, 0, name.len());
    }
    proof {
        lemma_rfind_char_bound(name@, '.');
    }
    match rfind_index(name, '.') {
        Some(i) => if i == 0 {
            copy_range(name, 0, name.len())
        } else {
            copy_range(name, 0, i)
        },
        None => copy_range(name, 0, name.len()),
    }
}

/// The version tag of a recognition model, read from its file name.
pub fn get_model_version(model_path: &str) -> (r: String)
    ensures
        r@ == model_version(model_path@),
{
    let p = chars_of(model_path);
    let stem: Vec<char> = match file_name_of(p.as_slice()) {
        Some(n) => stem_of(n.as_slice()),
        None => Vec::new(),
    };
    let prefix = chars_of("face_recognition_");
    if starts_with(stem.as_slice(), prefix.as_slice()) {
        let rest = copy_range(stem.as_slice(), prefix.len(), stem.len());
        string_from_chars(rest.as_slice())
    } else {
        string_from_chars(stem.as_slice())
    }
}

/// Queries a camera device; implemented over the operating system by the
/// daemon, and by hand in tests.
pub trait ICameraBackend: Send + Sync {
    fn get_device_paths(&self) -> Vec<String>;

    fn is_video_capture_device(&self, path: &str) -> bool;

    fn get_pixel_formats(&self, path: &str) -> Vec<u32>;
}

/// Grey-level pixel formats.
pub open spec fn is_grey_format(f: u32) -> bool {
    f == V4L2_PIX_FMT_GREY || f == V4L2_PIX_FMT_Y10 || f == V4L2_PIX_FMT_Y12 || f
        == V4L2_PIX_FMT_Y16
}

/// Colour pixel formats.
pub open spec fn is_color_format(f: u32) -> bool {
    f == V4L2_PIX_FMT_MJPEG || f == V4L2_PIX_FMT_YUYV || f == V4L2_PIX_FMT_UYVY || f
        == V4L2_PIX_FMT_NV12 || f == V4L2_PIX_FMT_RGB24 || f == V4L2_PIX_FMT_BGR24
}

/// The kind of a camera: none for a device that cannot capture video; `rgb`
/// when it offers a colour format; else `ir` when it offers a grey format;
/// else `generic`.
pub open spec fn camera_kind(is_capture: bool, formats: Seq<u32>) -> Seq<char> {
    if !is_capture {
        Seq::empty()
    } else if exists|i: int| 0 <= i < formats.len() && is_color_format(#[trigger] formats[i]) {
        "rgb"@
    } else if exists|i: int| 0 <= i < formats.len() && is_grey_format(#[trigger] formats[i]) {
        "ir"@
    } else {
        "generic"@
    }
}

/// The kind of a camera from what its device reports.
pub fn classify_formats(is_capture: bool, formats: &[u32]) -> (r: String)
    ensures
        r@ == camera_kind(is_capture, formats@),
{
    if !is_capture {
        return String::new();
    }
    let mut has_grey = false;
    let mut has_color = false;
    let mut i: usize = 0;
    while i < formats.len()
        invariant
            i <= formats.len(),
            has_grey == exists|k: int| 0 <= k < i && is_grey_format(#[trigger] formats@[k]),
            has_color == exists|k: int| 0 <= k < i && is_color_format(#[trigger] formats@[k]),
        decreases formats.len() - i,
    {
        let f = formats[i];
        if f == V4L2_PIX_FMT_GREY || f == V4L2_PIX_FMT_Y10 || f == V4L2_PIX_FMT_Y12 || f
            == V4L2_PIX_FMT_Y16 {
            has_grey = true;
        }
        if f == V4L2_PIX_FMT_MJPEG || f == V4L2_PIX_FMT_YUYV || f == V4L2_PIX_FMT_UYVY || f
            == V4L2_PIX_FMT_NV12 || f == V4L2_PIX_FMT_RGB24 || f == V4L2_PIX_FMT_BGR24 {
            has_color = true;
        }
        assert(formats@[i as int] == f);
        i = i + 1;
    }
    if has_grey && !has_color {
        string_from_str("ir")
    } else if has_color {
        string_from_str("rgb")
    } else if has_grey {
        string_from_str("ir")
    } else {
        string_from_str("generic")
    }
}

/// The kind of the camera at `device_path`, as the backend describes it.
pub fn classify_camera_type<B: ICameraBackend + ?Sized>(device_path: &str, backend: &B) -> (r:
    String)
    ensures
        r@ == Seq::<char>::empty() || r@ == "rgb"@ || r@ == "ir"@ || r@ == "generic"@,
{
    if !backend.is_video_capture_device(device_path) {
        return String::new();
    }
    let formats = backend.get_pixel_formats(device_path);
    classify_formats(true, formats.as_slice())
}

/// A camera entry: device path and kind.
pub open spec fn entry_view(e: (String, String)) -> (Seq<char>, Seq<char>) {
    (e.0@, e.1@)
}

pub open spec fn entries_view(s: Seq<(String, String)>) -> Seq<(Seq<char>, Seq<char>)> {
    Seq::new(s.len(), |i: int| entry_view(s[i]))
}

/// Entries are in non-decreasing order of path.
pub open spec fn sorted_by_path(s: Seq<(Seq<char>, Seq<char>)>) -> bool {
    forall|i: int, j: int| 0 <= i < j < s.len() ==> !seq_lt(#[trigger] s[j].0, #[trigger] s[i].0)
}

/// The entries with path `p`, in order.
pub open spec fn with_path(s: Seq<(Seq<char>, Seq<char>)>, p: Seq<char>) -> Seq<(Seq<char>, Seq<char>)>
    decreases s.len(),
{
    if s.len() == 0 {
        Seq::empty()
    } else if s.last().0 == p {
        with_path(s.drop_last(), p).push(s.last())
    } else {
        with_path(s.drop_last(), p)
    }
}

proof fn lemma_with_path_concat(a: Seq<(Seq<char>, Seq<char>)>, b: Seq<(Seq<char>, Seq<char>)>, p: Seq<char>)
    ensures
        with_path(a + b, p) == with_path(a, p) + with_path(b, p),
    decreases b.len(),
{
    if b.len() == 0 {
        assert(a + b == a);
        assert(with_path(a, p) + Seq::empty() == with_path(a, p));
    } else {
        assert((a + b).drop_last() == a + b.drop_last());
        assert((a + b).last() == b.last());
        lemma_with_path_concat(a, b.drop_last(), p);
    }
}

proof fn lemma_with_path_none(s: Seq<(Seq<char>, Seq<char>)>, p: Seq<char>)
    requires
        forall|i: int| 0 <= i < s.len() ==> (#[trigger] s[i]).0 != p,
    ensures
        with_path(s, p) == Seq::<(Seq<char>, Seq<char>)>::empty(),
    decreases s.len(),
{
    if s.len() > 0 {
        assert(s.last() == s[s.len() - 1]);
        lemma_with_path_none(s.drop_last(), p);
    }
}

proof fn lemma_with_path_single(x: (Seq<char>, Seq<char>), p: Seq<char>)
    ensures
        with_path(seq![x], p) == if x.0 == p {
            seq![x]
        } else {
            Seq::empty()
        },
{
    assert(seq![x].drop_last() == Seq::<(Seq<char>, Seq<char>)>::empty());
    assert(seq![x].last() == x);
    assert(with_path(Seq::<(Seq<char>, Seq<char>)>::empty(), p) == Seq::<(Seq<char>, Seq<char>)>::empty());
    assert(Seq::<(Seq<char>, Seq<char>)>::empty().push(x) == seq![x]);
}

/// Where an entry with path `x` goes in a list ordered by path: before the
/// first entry whose path sorts after `x`.
pub open spec fn insert_position(t: Seq<(Seq<char>, Seq<char>)>, x: Seq<char>) -> int
    decreases t.len(),
{
    if t.len() == 0 {
        0
    } else if seq_lt(x, t[0].0) {
        0
    } else {
        1 + insert_position(t.drop_first(), x)
    }
}

/// The entries ordered by path, entries with the same path keeping their
/// order: each entry in turn goes after every entry whose path does not sort
/// after its own.
pub open spec fn sort_by_path(s: Seq<(Seq<char>, Seq<char>)>) -> Seq<(Seq<char>, Seq<char>)>
    decreases s.len(),
{
    if s.len() == 0 {
        Seq::empty()
    } else {
        let t = sort_by_path(s.drop_last());
        t.insert(insert_position(t, s.last().0), s.last())
    }
}

proof fn lemma_insert_position(t: Seq<(Seq<char>, Seq<char>)>, x: Seq<char>, k: int)
    requires
        0 <= k <= t.len(),
        forall|m: int| 0 <= m < k ==> !seq_lt(x, #[trigger] t[m].0),
        k < t.len() ==> seq_lt(x, t[k].0),
    ensures
        insert_position(t, x) == k,
    decreases t.len(),
{
    if t.len() > 0 && k > 0 {
        assert(!seq_lt(x, t[0].0));
        assert forall|m: int| 0 <= m < k - 1 implies !seq_lt(x, #[trigger] t.drop_first()[m].0) by {
            assert(t.drop_first()[m] == t[m + 1]);
        }
        if k < t.len() {
            assert(t.drop_first()[k - 1] == t[k]);
        }
        lemma_insert_position(t.drop_first(), x, k - 1);
    }
}

/// Orders camera entries by path; entries with the same path keep their order
/// (a stable sort, as `sort_by` on the path is).
pub fn sort_cameras(cams: Vec<(String, String)>) -> (r: Vec<(String, String)>)
    ensures
        entries_view(r@) == sort_by_path(entries_view(cams@)),
        sorted_by_path(entries_view(r@)),
        forall|p: Seq<char>| #[trigger] with_path(entries_view(r@), p) == with_path(entries_view(cams@), p),
{
    let ghost input = entries_view(cams@);
    let mut out: Vec<(String, String)> = Vec::new();
    let mut i: usize = 0;
    while i < cams.len()
        invariant
            i <= cams.len(),
            input == entries_view(cams@),
            entries_view(out@) == sort_by_path(input.subrange(0, i as int)),
            sorted_by_path(entries_view(out@)),
            forall|p: Seq<char>| #[trigger] with_path(entries_view(out@), p) == with_path(input.subrange(0, i as int), p),
        decreases cams.len() - i,
    {
        let xp = chars_of(cams[i].0.as_str());
        let ghost x = input[i as int];
        assert(xp@ == x.0);
        // Find the first entry whose path sorts after the new one.
        let mut k: usize = 0;
        while k < out.len()
            invariant
                k <= out.len(),
                xp@ == x.0,
                forall|m: int| 0 <= m < k ==> !seq_lt(x.0, #[trigger] entries_view(out@)[m].0),
            ensures
                k <= out.len(),
                forall|m: int| 0 <= m < k ==> !seq_lt(x.0, #[trigger] entries_view(out@)[m].0),
                k < out.len() ==> seq_lt(x.0, entries_view(out@)[k as int].0),
            decreases out.len() - k,
        {
            let kp = chars_of(out[k].0.as_str());
            if chars_lt(xp.as_slice(), kp.as_slice()) {
                break;
            }
            k = k + 1;
        }
        let ghost old_out = entries_view(out@);
        proof {
            lemma_insert_position(old_out, x.0, k as int);
            assert(input.subrange(0, i + 1).drop_last() == input.subrange(0, i as int));
            assert(input.subrange(0, i + 1).last() == x);
        }
        let e = (string_from_chars(xp.as_slice()), {
            let t = chars_of(cams[i].1.as_str());
            string_from_chars(t.as_slice())
        });
        assert(entry_view(e) == x);
        out.insert(k, e);
        let ghost new_out = entries_view(out@);
        assert(new_out =~= old_out.insert(k as int, x));
        proof {
            assert(sorted_by_path(new_out)) by {
                assert forall|a: int, b: int| 0 <= a < b < new_out.len() implies !seq_lt(#[trigger] new_out[b].0, #[trigger] new_out[a].0) by {
                    if b < k {
                        assert(new_out[a] == old_out[a] && new_out[b] == old_out[b]);
                    } else if b == k {
                        assert(new_out[a] == old_out[a]);
                    } else if a == k {
                        assert(new_out[b] == old_out[b - 1]);
                        // x sorts before old_out[k] <= old_out[b - 1]
                        if b - 1 == k {
                            lemma_seq_lt_asymmetric(x.0, old_out[k as int].0);
                        } else {
                            if seq_lt(old_out[b - 1].0, x.0) {
                                lemma_seq_lt_total(old_out[k as int].0, old_out[b - 1].0);
                                if seq_lt(old_out[k as int].0, old_out[b - 1].0) {
                                    lemma_seq_lt_transitive(x.0, old_out[k as int].0, old_out[b - 1].0);
                                    lemma_seq_lt_asymmetric(x.0, old_out[b - 1].0);
                                } else if old_out[k as int].0 == old_out[b - 1].0 {
                                    lemma_seq_lt_asymmetric(x.0, old_out[k as int].0);
                                }
                            }
                        }
                    } else if a < k {
                        assert(new_out[a] == old_out[a] && new_out[b] == old_out[b - 1]);
                        if b - 1 < k {
                        } else {
                            // old_out[a] <= x < old_out[k] <= old_out[b-1]
                            if seq_lt(old_out[b - 1].0, old_out[a].0) {
                                assert(!seq_lt(old_out[b - 1].0, old_out[a].0));
                            }
                        }
                    } else {
                        assert(new_out[a] == old_out[a - 1] && new_out[b] == old_out[b - 1]);
                    }
                }
            }
            assert forall|p: Seq<char>| #[trigger] with_path(new_out, p) == with_path(input.subrange(0, i + 1), p) by {
                assert(old_out.insert(k as int, x) == old_out.subrange(0, k as int) + seq![x] + old_out.subrange(k as int, old_out.len() as int));
                assert(old_out == old_out.subrange(0, k as int) + old_out.subrange(k as int, old_out.len() as int));
                lemma_with_path_concat(old_out.subrange(0, k as int) + seq![x], old_out.subrange(k as int, old_out.len() as int), p);
                lemma_with_path_concat(old_out.subrange(0, k as int), seq![x], p);
                lemma_with_path_concat(old_out.subrange(0, k as int), old_out.subrange(k as int, old_out.len() as int), p);
                lemma_with_path_single(x, p);
                assert(input.subrange(0, i + 1).drop_last() == input.subrange(0, i as int));
                assert(input.subrange(0, i + 1).last() == x);
                if p == x.0 {
                    let tail = old_out.subrange(k as int, old_out.len() as int);
                    assert forall|m: int| 0 <= m < tail.len() implies (#[trigger] tail[m]).0 != p by {
                        assert(tail[m] == old_out[k + m]);
                        if m > 0 {
                            lemma_seq_lt_total(old_out[k as int].0, old_out[k + m].0);
                            if seq_lt(old_out[k + m].0, old_out[k as int].0) {
                                assert(!seq_lt(old_out[k + m].0, old_out[k as int].0));
                            }
                            if old_out[k + m].0 == x.0 {
                                lemma_seq_lt_asymmetric(x.0, old_out[k as int].0);
                                if old_out[k as int].0 != old_out[k + m].0 {
                                    lemma_seq_lt_transitive(x.0, old_out[k as int].0, old_out[k + m].0);
                                    crate::text::lemma_seq_lt_irreflexive(x.0);
                                }
                            }
                        } else {
                            crate::text::lemma_seq_lt_irreflexive(x.0);
                        }
                    }
                    lemma_with_path_none(tail, p);
                    assert(with_path(old_out.subrange(0, k as int), p) + Seq::empty() == with_path(old_out.subrange(0, k as int), p));
                    assert(with_path(old_out.subrange(0, k as int), p) + seq![x] + Seq::empty() == with_path(old_out.subrange(0, k as int), p).push(x));
                } else {
                    assert(with_path(old_out.subrange(0, k as int), p) + Seq::empty() == with_path(old_out.subrange(0, k as int), p));
                }
            }
        }
        i = i + 1;
    }
    assert(input.subrange(0, cams.len() as int) == input);
    out
}

/// The probed devices that are cameras: the entries that have a kind, in
/// their order.
pub open spec fn detected_entries(s: Seq<(Seq<char>, Seq<char>)>) -> Seq<(Seq<char>, Seq<char>)>
    decreases s.len(),
{
    if s.len() == 0 {
        Seq::empty()
    } else if s.last().1.len() > 0 {
        detected_entries(s.drop_last()).push(s.last())
    } else {
        detected_entries(s.drop_last())
    }
}

proof fn lemma_detected_origin(s: Seq<(Seq<char>, Seq<char>)>, k: int)
    requires
        0 <= k < detected_entries(s).len(),
    ensures
        detected_entries(s)[k].1.len() > 0,
        exists|m: int| 0 <= m < s.len() && s[m] == detected_entries(s)[k],
    decreases s.len(),
{
    let d = detected_entries(s.drop_last());
    if s.last().1.len() > 0 && k == d.len() {
        assert(s[s.len() - 1] == s.last());
    } else {
        assert(detected_entries(s)[k] == d[k]);
        lemma_detected_origin(s.drop_last(), k);
        let m = choose|m: int| 0 <= m < s.drop_last().len() && s.drop_last()[m] == d[k];
        assert(s[m] == d[k]);
    }
}

/// The camera list made from what the backend answered for each device, as
/// (path, kind) with an empty kind for a device that is no camera: the
/// devices without a kind are dropped and the others ordered by path,
/// entries with the same path keeping their order.
pub fn cameras_from_probes(probes: Vec<(String, String)>) -> (r: Vec<(String, String)>)
    ensures
        entries_view(r@) == sort_by_path(detected_entries(entries_view(probes@))),
        sorted_by_path(entries_view(r@)),
        forall|p: Seq<char>| #[trigger] with_path(entries_view(r@), p) == with_path(detected_entries(entries_view(probes@)), p),
{
    let ghost pv = entries_view(probes@);
    let mut kept: Vec<(String, String)> = Vec::new();
    let mut i: usize = 0;
    while i < probes.len()
        invariant
            i <= probes.len(),
            pv == entries_view(probes@),
            entries_view(kept@) == detected_entries(pv.subrange(0, i as int)),
        decreases probes.len() - i,
    {
        assert(pv.subrange(0, i + 1).drop_last() == pv.subrange(0, i as int));
        assert(pv.subrange(0, i + 1).last() == pv[i as int]);
        if probes[i].1.as_str().unicode_len() > 0 {
            let ghost before = entries_view(kept@);
            let pc = chars_of(probes[i].0.as_str());
            let kc = chars_of(probes[i].1.as_str());
            kept.push((string_from_chars(pc.as_slice()), string_from_chars(kc.as_slice())));
            assert(entries_view(kept@) =~= before.push(pv[i as int]));
        }
        i = i + 1;
    }
    assert(pv.subrange(0, pv.len() as int) == pv);
    sort_cameras(kept)
}

/// A kind that probing a device can give: none, `rgb`, `ir` or `generic`.
pub open spec fn probe_kind(k: Seq<char>) -> bool {
    k == Seq::<char>::empty() || k == "rgb"@ || k == "ir"@ || k == "generic"@
}

/// A camera list as devices are probed into: for some probed devices (path
/// and kind each), those with a kind, ordered by path.
pub open spec fn camera_listing(d: Seq<(Seq<char>, Seq<char>)>) -> bool {
    exists|probes: Seq<(Seq<char>, Seq<char>)>|
        (forall|i: int| 0 <= i < probes.len() ==> probe_kind(#[trigger] probes[i].1)) && d == sort_by_path(
            detected_entries(probes),
        )
}

/// Every video capture device with its kind, ordered by path: each device
/// that the backend lists is probed, and the list is made from the answers
/// by `cameras_from_probes`.
pub fn enumerate_cameras<B: ICameraBackend + ?Sized>(backend: &B) -> (r: Vec<(String, String)>)
    ensures
        camera_listing(entries_view(r@)),
        sorted_by_path(entries_view(r@)),
        forall|i: int| 0 <= i < r@.len() ==> (#[trigger] r@[i]).1@ == "rgb"@ || r@[i].1@ == "ir"@ || r@[i].1@ == "generic"@,
{
    let mut probes: Vec<(String, String)> = Vec::new();
    let paths = backend.get_device_paths();
    let mut i: usize = 0;
    while i < paths.len()
        invariant
            i <= paths.len(),
            forall|j: int| 0 <= j < probes@.len() ==> (#[trigger] probes@[j]).1@ == Seq::<char>::empty() || probes@[j].1@ == "rgb"@ || probes@[j].1@ == "ir"@ || probes@[j].1@ == "generic"@,
        decreases paths.len() - i,
    {
        let cam_type = classify_camera_type(paths[i].as_str(), backend);
        let pc = chars_of(paths[i].as_str());
        probes.push((string_from_chars(pc.as_slice()), cam_type));
        i = i + 1;
    }
    let ghost pv = entries_view(probes@);
    let sorted = cameras_from_probes(probes);
    proof {
        reveal_strlit("");
        assert(forall|i: int| 0 <= i < pv.len() ==> probe_kind(#[trigger] pv[i].1));
        assert(camera_listing(entries_view(sorted@)));
        assert forall|j: int| 0 <= j < sorted@.len() implies (#[trigger] sorted@[j]).1@ == "rgb"@ || sorted@[j].1@ == "ir"@ || sorted@[j].1@ == "generic"@ by {
            let e = entries_view(sorted@)[j];
            lemma_with_path_member(entries_view(sorted@), j);
            assert(with_path(entries_view(sorted@), e.0) == with_path(detected_entries(pv), e.0));
            lemma_with_path_origin(detected_entries(pv), e.0, e);
            let k = choose|k: int| 0 <= k < detected_entries(pv).len() && detected_entries(pv)[k] == e;
            lemma_detected_origin(pv, k);
            let m = choose|m: int| 0 <= m < pv.len() && pv[m] == detected_entries(pv)[k];
            assert(pv[m].1 == probes@[m].1@);
            assert(e.1.len() > 0);
            assert(sorted@[j].1@ == e.1);
        }
    }
    sorted
}

proof fn lemma_with_path_member(s: Seq<(Seq<char>, Seq<char>)>, j: int)
    requires
        0 <= j < s.len(),
    ensures
        with_path(s, s[j].0).contains(s[j]),
    decreases s.len(),
{
    if j == s.len() - 1 {
        assert(s.last() == s[j]);
        assert(with_path(s, s[j].0).last() == s[j]);
    } else {
        assert(s.drop_last()[j] == s[j]);
        lemma_with_path_member(s.drop_last(), j);
        let w = with_path(s.drop_last(), s[j].0);
        if s.last().0 == s[j].0 {
            let m = choose|m: int| 0 <= m < w.len() && w[m] == s[j];
            assert(w.push(s.last())[m] == s[j]);
        }
    }
}

proof fn lemma_with_path_origin(s: Seq<(Seq<char>, Seq<char>)>, p: Seq<char>, e: (Seq<char>, Seq<char>))
    requires
        with_path(s, p).contains(e),
    ensures
        exists|k: int| 0 <= k < s.len() && s[k] == e,
    decreases s.len(),
{
    if s.len() > 0 {
        let w = with_path(s.drop_last(), p);
        if s.last().0 == p && e == s.last() {
            assert(s[s.len() - 1] == e);
        } else {
            if s.last().0 == p {
                let m = choose|m: int| 0 <= m < w.push(s.last()).len() && w.push(s.last())[m] == e;
                assert(m < w.len());
                assert(w[m] == e);
            }
            lemma_with_path_origin(s.drop_last(), p, e);
            let k = choose|k: int| 0 <= k < s.drop_last().len() && s.drop_last()[k] == e;
            assert(s[k] == e);
        }
    }
}

/// Milliseconds left until a deadline, both given in nanoseconds on one
/// clock: zero once the deadline is reached, else the whole milliseconds
/// left, at most `i32::MAX`.
pub open spec fn remaining_ms(deadline_ns: u128, now_ns: u128) -> i32 {
    if now_ns >= deadline_ns {
        0
    } else if (deadline_ns - now_ns) / 1_000_000 > i32::MAX {
        i32::MAX
    } else {
        ((deadline_ns - now_ns) / 1_000_000) as i32
    }
}

/// The timeout to hand to `poll` so that it returns by the deadline.
pub fn poll_remaining_ms(deadline_ns: u128, now_ns: u128) -> (r: i32)
    ensures
        r == remaining_ms(deadline_ns, now_ns),
{
    if now_ns >= deadline_ns {
        0
    } else {
        let millis = (deadline_ns - now_ns) / 1_000_000;
        if millis > 0x7fff_ffff {
            0x7fff_ffff
        } else {
            millis as i32
        }
    }
}


/// Characters allowed in the IR emitter's path.
pub open spec fn emitter_path_char(c: char) -> bool {
    is_ascii_alnum(c) || c == '/' || c == '.' || c == '_' || c == '-'
}

/// Whether the IR emitter's path may be run to ask its version: it is not
/// empty and holds only letters, digits, `/`, `.`, `_` and `-`.
pub open spec fn emitter_path_safe(p: Seq<char>) -> bool {
    p.len() > 0 && forall|i: int| 0 <= i < p.len() ==> emitter_path_char(#[trigger] p[i])
}

pub fn is_emitter_path_safe(path: &str) -> (r: bool)
    ensures
        r == emitter_path_safe(path@),
{
    let p = chars_of(path);
    if p.len() == 0 {
        return false;
    }
    let mut i: usize = 0;
    while i < p.len()
        invariant
            i <= p@.len(),
            p@ == path@,
            forall|k: int| 0 <= k < i ==> emitter_path_char(#[trigger] p@[k]),
        decreases p.len() - i,
    {
        let c = p[i];
        if !(is_ascii_alnum_char(c) || c == '/' || c == '.' || c == '_' || c == '-') {
            return false;
        }
        i = i + 1;
    }
    true
}

/// The number of line-ending characters (`\n`, `\r`) at the end of `s`.
pub open spec fn line_end_len(s: Seq<char>) -> nat
    decreases s.len(),
{
    if s.len() > 0 && (s.last() == '\n' || s.last() == '\r') {
        1 + line_end_len(s.drop_last())
    } else {
        0
    }
}

/// `s` without the line-ending characters at its end.
pub open spec fn without_line_ends(s: Seq<char>) -> Seq<char> {
    s.subrange(0, s.len() - line_end_len(s))
}

proof fn lemma_line_end_len(s: Seq<char>)
    ensures
        line_end_len(s) <= s.len(),
    decreases s.len(),
{
    if s.len() > 0 {
        lemma_line_end_len(s.drop_last());
    }
}

/// The version that the IR emitter printed: its output without the line
/// endings at the end.
pub fn trim_line_endings(output: &str) -> (r: String)
    ensures
        r@ == without_line_ends(output@),
{
    let s = chars_of(output);
    let mut n = s.len();
    proof {
        lemma_line_end_len(s@);
    }
    assert(s@.subrange(0, n as int) =~= s@);
    while n > 0 && (s[n - 1] == '\n' || s[n - 1] == '\r')
        invariant
            n <= s@.len(),
            line_end_len(s@) == (s@.len() - n) + line_end_len(s@.subrange(0, n as int)),
        decreases n,
    {
        assert(s@.subrange(0, n as int).drop_last() == s@.subrange(0, n - 1));
        n = n - 1;
    }
    let r = copy_range(s.as_slice(), 0, n);
    string_from_chars(r.as_slice())
}

/// What is being read of a command line: the words so far, the word being
/// read, whether inside single and double quotes, and whether the last
/// character was a backslash.
pub type WordsState = (Seq<Seq<char>>, Seq<char>, bool, bool, bool);

/// The reading after one more character: a backslash takes the next
/// character as it is; quotes of one kind toggle outside quotes of the other
/// kind; whitespace outside quotes ends a word; anything else is part of the
/// word.
pub open spec fn words_step(st: WordsState, c: char) -> WordsState {
    let (args, cur, sq, dq, esc) = st;
    if esc {
        (args, cur.push(c), sq, dq, false)
    } else if c == '\\' {
        (args, cur, sq, dq, true)
    } else if c == '\'' && !dq {
        (args, cur, !sq, dq, false)
    } else if c == '"' && !sq {
        (args, cur, sq, !dq, false)
    } else if is_ws(c) && !sq && !dq {
        if cur.len() > 0 {
            (args.push(cur), Seq::empty(), sq, dq, false)
        } else {
            st
        }
    } else {
        (args, cur.push(c), sq, dq, false)
    }
}

pub open spec fn words_state(s: Seq<char>) -> WordsState
    decreases s.len(),
{
    if s.len() == 0 {
        (Seq::empty(), Seq::empty(), false, false, false)
    } else {
        words_step(words_state(s.drop_last()), s.last())
    }
}

/// The words of a command line.
pub open spec fn command_words(s: Seq<char>) -> Seq<Seq<char>> {
    let st = words_state(s);
    if st.1.len() > 0 {
        st.0.push(st.1)
    } else {
        st.0
    }
}

/// The longest command line, in bytes, that is run.
pub const MAX_COMMAND_LENGTH: usize = 4096;

/// Whether a command line is run at all: it is not empty, holds at most
/// 4096 bytes, and has no control character other than whitespace.
pub open spec fn command_line_ok(s: Seq<char>) -> bool {
    &&& s.len() > 0
    &&& utf8_len(s) <= MAX_COMMAND_LENGTH
    &&& forall|i: int| 0 <= i < s.len() ==> !(is_control(#[trigger] s[i]) && !is_ws(s[i]))
}

/// The program and arguments of a command line, split as a shell would for
/// quotes and backslashes; `None` when the line is not run: it is empty, too
/// long, holds a control character, or has no word.
pub fn split_command_line(command_line: &str) -> (r: Option<Vec<String>>)
    ensures
        r is Some <==> command_line_ok(command_line@) && command_words(command_line@).len() > 0,
        r is Some ==> r->0.deep_view() == command_words(command_line@),
{
    let s = chars_of(command_line);
    if s.len() == 0 {
        return None;
    }
    match utf8_len_up_to(s.as_slice(), MAX_COMMAND_LENGTH) {
        Some(_) => {},
        None => {
            return None;
        },
    }
    let mut k: usize = 0;
    while k < s.len()
        invariant
            k <= s@.len(),
            s@ == command_line@,
            s@.len() > 0,
            utf8_len(s@) <= MAX_COMMAND_LENGTH,
            forall|i: int| 0 <= i < k ==> !(is_control(#[trigger] s@[i]) && !is_ws(s@[i])),
        decreases s.len() - k,
    {
        if is_control_char(s[k]) && !is_ws_char(s[k]) {
            return None;
        }
        k = k + 1;
    }
    let mut args: Vec<String> = Vec::new();
    let mut cur: Vec<char> = Vec::new();
    let mut sq = false;
    let mut dq = false;
    let mut esc = false;
    let mut i: usize = 0;
    while i < s.len()
        invariant
            i <= s@.len(),
            s@ == command_line@,
            command_line_ok(s@),
            words_state(s@.subrange(0, i as int)) == (args.deep_view(), cur@, sq, dq, esc),
        decreases s.len() - i,
    {
        assert(s@.subrange(0, i + 1).drop_last() =~= s@.subrange(0, i as int));
        assert(s@.subrange(0, i + 1).last() == s@[i as int]);
        let c = s[i];
        if esc {
            cur.push(c);
            esc = false;
        } else if c == '\\' {
            esc = true;
        } else if c == '\'' && !dq {
            sq = !sq;
        } else if c == '"' && !sq {
            dq = !dq;
        } else if is_ws_char(c) && !sq && !dq {
            if cur.len() > 0 {
                let ghost old_args = args.deep_view();
                args.push(string_from_chars(cur.as_slice()));
                assert(args.deep_view() =~= old_args.push(cur@));
                cur = Vec::new();
            }
        } else {
            cur.push(c);
        }
        i = i + 1;
    }
    assert(s@.subrange(0, s@.len() as int) =~= s@);
    if cur.len() > 0 {
        let ghost old_args = args.deep_view();
        args.push(string_from_chars(cur.as_slice()));
        assert(args.deep_view() =~= old_args.push(cur@));
    }
    if args.len() == 0 {
        None
    } else {
        Some(args)
    }
}

} // verus!
