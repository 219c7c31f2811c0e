//! Taking the presence sensor over from the kernel: its hardware id, and the
//! sysfs paths and steps that disable its wake-up and find its HID device.
use vstd::prelude::*;

use crate::text::{chars_of, copy_range, has_prefix, starts_with, string_from_chars, string_from_str, push_str};

verus! {

pub const MAX_HARDWARE_ID_LENGTH: usize = 32;

pub const MAX_HIDRAW_RETRIES: usize = 5;

/// `char::is_alphanumeric`, Unicode's `Alphabetic` or `Numeric` property.
pub uninterp spec fn char_is_alphanumeric(c: char) -> bool;

/// Calls `char::is_alphanumeric`. The result is named: it is true of ASCII
/// letters and digits and false of every other ASCII character; what it is on
/// other characters follows Unicode's tables, which are not stated here.
#[verifier::external_body]
fn is_alphanumeric(c: char) -> (r: bool)
    ensures
        r == char_is_alphanumeric(c),
        crate::text::is_ascii_alnum(c) ==> r,
        (c as u32) < 0x80 && !crate::text::is_ascii_alnum(c) ==> !r,
{
    c.is_alphanumeric()
}

/// The number of bytes of the UTF-8 encoding of `c`.
pub open spec fn utf8_width(c: char) -> nat {
    let u = c as u32;
    if u < 0x80 {
        1
    } else if u < 0x800 {
        2
    } else if u < 0x10000 {
        3
    } else {
        4
    }
}

/// The number of bytes of the UTF-8 encoding of `s`, which `str::len` gives.
pub open spec fn utf8_len(s: Seq<char>) -> nat
    decreases s.len(),
{
    if s.len() == 0 {
        0
    } else {
        utf8_width(s[0]) + utf8_len(s.drop_first())
    }
}

/// `utf8_len` is the length of vstd's UTF-8 encoding.
pub proof fn lemma_utf8_len(s: Seq<char>)
    ensures
        utf8_len(s) == vstd::utf8::encode_utf8(s).len(),
    decreases s.len(),
{
    if s.len() > 0 {
        lemma_utf8_len(s.drop_first());
        vstd::utf8::char_is_scalar(s[0]);
    }
}

/// A hardware id: 1 to 32 bytes, every character alphanumeric.
pub open spec fn valid_hardware_id(s: Seq<char>) -> bool {
    &&& s.len() > 0
    &&& utf8_len(s) <= MAX_HARDWARE_ID_LENGTH
    &&& forall|i: int| 0 <= i < s.len() ==> char_is_alphanumeric(#[trigger] s[i])
}

/// The UTF-8 length of `s`, or `None` once it exceeds `limit`.
pub fn utf8_len_up_to(s: &[char], limit: usize) -> (r: Option<usize>)
    ensures
        match r {
            Some(n) => n == utf8_len(s@) && n <= limit,
            None => utf8_len(s@) > limit,
        },
{
    let mut total: usize = 0;
    let mut i: usize = 0;
    assert(s@.subrange(0, s.len() as int) == s@);
    while i < s.len()
        invariant
            i <= s.len(),
            total <= limit,
            utf8_len(s@) == total + utf8_len(s@.subrange(i as int, s.len() as int)),
        decreases s.len() - i,
    {
        let u = s[i] as u32;
        let w: usize = if u < 0x80 {
            1
        } else if u < 0x800 {
            2
        } else if u < 0x10000 {
            3
        } else {
            4
        };
        assert(s@.subrange(i as int, s.len() as int).drop_first() == s@.subrange(i + 1, s.len() as int));
        assert(s@.subrange(i as int, s.len() as int)[0] == s@[i as int]);
        if w > limit - total {
            proof {
                lemma_utf8_len_nonneg(s@.subrange(i + 1, s.len() as int));
            }
            return None;
        }
        total = total + w;
        i = i + 1;
    }
    Some(total)
}

proof fn lemma_utf8_len_nonneg(s: Seq<char>)
    ensures
        utf8_len(s) >= 0,
{
}

/// A validated hardware id.
#[derive(Debug, Clone, PartialEq, Eq)]
pub struct HardwareId(String);

impl View for HardwareId {
    type V = Seq<char>;

    closed spec fn view(&self) -> Seq<char> {
        self.0@
    }
}

impl HardwareId {
    /// Accepts `id` when it is 1 to 32 bytes of alphanumeric characters.
    pub fn new(id: &str) -> (r: Result<Self, &'static str>)
        ensures
            match r {
                Ok(h) => valid_hardware_id(id@) && h@ == id@,
                Err(e) => !valid_hardware_id(id@) && e@ == "Invalid Hardware ID"@,
            },
    {
        let c = chars_of(id);
        if c.len() == 0 {
            return Err("Invalid Hardware ID");
        }
        match utf8_len_up_to(c.as_slice(), MAX_HARDWARE_ID_LENGTH) {
            None => {
                return Err("Invalid Hardware ID");
            },
            Some(_) => {},
        }
        let mut i: usize = 0;
        while i < c.len()
            invariant
                i <= c.len(),
                c@ == id@,
                forall|k: int| 0 <= k < i ==> char_is_alphanumeric(#[trigger] c@[k]),
            decreases c.len() - i,
        {
            if !is_alphanumeric(c[i]) {
                assert(!char_is_alphanumeric(c@[i as int]));
                return Err("Invalid Hardware ID");
            }
            i = i + 1;
        }
        Ok(HardwareId(string_from_chars(c.as_slice())))
    }

    pub fn get(&self) -> (r: &str)
        ensures
            r@ == self@,
    {
        self.0.as_str()
    }

    pub fn str(&self) -> (r: &str)
        ensures
            r@ == self@,
    {
        self.0.as_str()
    }
}

/// `PathBuf::join`: an absolute `b` replaces `a`; else `b` follows `a`, with a
/// slash between them unless `a` is empty or already ends with one.
pub open spec fn path_join(a: Seq<char>, b: Seq<char>) -> Seq<char> {
    if b.len() > 0 && b[0] == '/' {
        b
    } else if a.len() == 0 {
        b
    } else if a.last() == '/' {
        a + b
    } else {
        a + seq!['/'] + b
    }
}

/// `PathBuf::join` on strings.
pub fn join_path(a: &str, b: &str) -> (r: String)
    ensures
        r@ == path_join(a@, b@),
{
    let ac = chars_of(a);
    let bc = chars_of(b);
    if bc.len() > 0 && bc[0] == '/' {
        return string_from_chars(bc.as_slice());
    }
    if ac.len() == 0 {
        return string_from_chars(bc.as_slice());
    }
    let mut out = string_from_chars(ac.as_slice());
    if ac[ac.len() - 1] != '/' {
        out.push('/');
    }
    assert(ac@.last() == ac@[ac.len() - 1]);
    push_str(&mut out, b);
    out
}

/// The file-system steps that taking the sensor over needs; the daemon
/// implements them over sysfs, and tests over a scratch directory.
pub trait SysfsAccess {
    /// Writes `value` to the file at `path`; whether it succeeded.
    fn write_value(&mut self, path: &str, value: &str) -> bool;

    /// The names in the directory at `path`, or `None` when it cannot be read.
    fn list_dir(&self, path: &str) -> Option<Vec<String>>;

    /// The last component of the target of the symbolic link at `path`.
    fn link_target_name(&self, path: &str) -> Option<String>;
}

/// The prefix of the HID device name of an I2C-HID device.
pub open spec fn hid_prefix() -> Seq<char> {
    "0018:"@
}

/// The first name that starts with the I2C-HID prefix.
pub open spec fn first_hid_name(names: Seq<Seq<char>>) -> Option<Seq<char>>
    decreases names.len(),
{
    if names.len() == 0 {
        None
    } else if has_prefix(names[0], hid_prefix()) {
        Some(names[0])
    } else {
        first_hid_name(names.drop_first())
    }
}

/// Picks the HID device among the names in the sensor's I2C directory.
pub fn select_hid_device(names: &Vec<String>) -> (r: Option<String>)
    ensures
        match r {
            Some(s) => first_hid_name(names.deep_view()) == Some(s@),
            None => first_hid_name(names.deep_view()) is None,
        },
{
    let prefix = chars_of("0018:");
    let ghost nv = names.deep_view();
    let mut i: usize = 0;
    assert(nv.subrange(0, nv.len() as int) == nv);
    while i < names.len()
        invariant
            i <= names.len(),
            nv == names.deep_view(),
            prefix@ == hid_prefix(),
            first_hid_name(nv) == first_hid_name(nv.subrange(i as int, nv.len() as int)),
        decreases names.len() - i,
    {
        assert(nv.subrange(i as int, nv.len() as int).drop_first() == nv.subrange(i + 1, nv.len() as int));
        assert(nv.subrange(i as int, nv.len() as int)[0] == nv[i as int]);
        let c = chars_of(names[i].as_str());
        if starts_with(c.as_slice(), prefix.as_slice()) {
            return Some(string_from_chars(c.as_slice()));
        }
        i = i + 1;
    }
    None
}

/// The sensor's sysfs locations and, once seized, its HID device.
pub struct HardwareManager {
    i2c_address: String,
    hid_id: String,
    previous_hid_driver: String,
    sys_i2c_path: String,
    sys_hid_path: String,
    dev_path: String,
}

impl HardwareManager {
    pub closed spec fn i2c_address(&self) -> Seq<char> {
        self.i2c_address@
    }

    pub closed spec fn hid_id_spec(&self) -> Seq<char> {
        self.hid_id@
    }

    pub closed spec fn previous_driver_spec(&self) -> Seq<char> {
        self.previous_hid_driver@
    }

    pub closed spec fn sys_i2c_path(&self) -> Seq<char> {
        self.sys_i2c_path@
    }

    pub closed spec fn sys_hid_path(&self) -> Seq<char> {
        self.sys_hid_path@
    }

    pub closed spec fn dev_path(&self) -> Seq<char> {
        self.dev_path@
    }

    /// The file that controls the sensor's wake-up.
    pub open spec fn wakeup_path_spec(&self) -> Seq<char> {
        path_join(path_join(path_join(self.sys_i2c_path(), self.i2c_address()), "power"@), "wakeup"@)
    }

    pub fn new(addr: &str, sys_i2c_path: &str, sys_hid_path: &str, dev_path: &str) -> (r: Self)
        ensures
            r.i2c_address() == addr@,
            r.hid_id_spec() == Seq::<char>::empty(),
            r.previous_driver_spec() == Seq::<char>::empty(),
            r.sys_i2c_path() == sys_i2c_path@,
            r.sys_hid_path() == sys_hid_path@,
            r.dev_path() == dev_path@,
    {
        HardwareManager {
            i2c_address: string_from_str(addr),
            hid_id: String::new(),
            previous_hid_driver: String::new(),
            sys_i2c_path: string_from_str(sys_i2c_path),
            sys_hid_path: string_from_str(sys_hid_path),
            dev_path: string_from_str(dev_path),
        }
    }

    /// A manager over the standard sysfs and device directories.
    pub fn with_defaults(addr: &str) -> (r: Self)
        ensures
            r.i2c_address() == addr@,
            r.hid_id_spec() == Seq::<char>::empty(),
            r.sys_i2c_path() == "/sys/bus/i2c/devices"@,
            r.sys_hid_path() == "/sys/bus/hid/devices"@,
            r.dev_path() == "/dev"@,
    {
        HardwareManager::new(addr, "/sys/bus/i2c/devices", "/sys/bus/hid/devices", "/dev")
    }

    /// The HID device found by `seize_sensor`; empty before.
    pub fn hid_id(&self) -> (r: &str)
        ensures
            r@ == self.hid_id_spec(),
    {
        self.hid_id.as_str()
    }

    /// The driver that the HID device was bound to when it was seized.
    pub fn previous_hid_driver(&self) -> (r: &str)
        ensures
            r@ == self.previous_driver_spec(),
    {
        self.previous_hid_driver.as_str()
    }

    /// The file that controls the sensor's wake-up.
    pub fn wakeup_path(&self) -> (r: String)
        ensures
            r@ == self.wakeup_path_spec(),
    {
        let a = join_path(self.sys_i2c_path.as_str(), self.i2c_address.as_str());
        let b = join_path(a.as_str(), "power");
        join_path(b.as_str(), "wakeup")
    }

    /// The sysfs directory of the seized HID device.
    pub fn hid_device_path(&self) -> (r: String)
        ensures
            r@ == path_join(self.sys_hid_path(), self.hid_id_spec()),
    {
        join_path(self.sys_hid_path.as_str(), self.hid_id.as_str())
    }

    /// The directory that lists the seized device's hidraw node.
    pub fn hidraw_search_path(&self) -> (r: String)
        ensures
            r@ == path_join(path_join(self.sys_hid_path(), self.hid_id_spec()), "hidraw"@),
    {
        let p = self.hid_device_path();
        join_path(p.as_str(), "hidraw")
    }

    /// The device node of a hidraw entry.
    pub fn hidraw_node_path(&self, entry: &str) -> (r: String)
        ensures
            r@ == path_join(self.dev_path(), entry@),
    {
        join_path(self.dev_path.as_str(), entry)
    }

    /// The directory of the sensor's I2C device.
    pub open spec fn i2c_dir_spec(&self) -> Seq<char> {
        path_join(self.sys_i2c_path(), self.i2c_address())
    }

    /// The link that names the driver of the HID device `id`.
    pub open spec fn driver_link_spec(&self, id: Seq<char>) -> Seq<char> {
        path_join(path_join(self.sys_hid_path(), id), "driver"@)
    }

    /// Whether `other` has the same I2C address and directories.
    pub open spec fn keeps_paths(&self, other: &HardwareManager) -> bool {
        &&& other.i2c_address() == self.i2c_address()
        &&& other.sys_i2c_path() == self.sys_i2c_path()
        &&& other.sys_hid_path() == self.sys_hid_path()
        &&& other.dev_path() == self.dev_path()
    }

    /// The first step of taking the sensor over: disable its wake-up.
    pub fn seize_first(&self) -> (r: SysfsStep)
        ensures
            r@ == StepView::Write(self.wakeup_path_spec(), "disabled"@),
    {
        SysfsStep::Write { path: self.wakeup_path(), value: string_from_str("disabled") }
    }

    /// The step that follows an answer of the file system while taking the
    /// sensor over: once the wake-up is disabled, list the I2C directory;
    /// given its entries, record the first HID device (`0018:`) and read the
    /// link to its driver; given the driver's name, record it (empty when
    /// the link cannot be read) and finish with success. A failed write, an
    /// unreadable directory or no HID device finishes with failure and
    /// changes nothing.
    pub fn seize_next(&mut self, answer: SysfsAnswer) -> (r: SysfsStep)
        ensures
            old(self).keeps_paths(&*final(self)),
            match answer@ {
                AnswerView::Written(ok) => *final(self) == *old(self) && r@ == if ok {
                    StepView::List(old(self).i2c_dir_spec())
                } else {
                    StepView::Done(false)
                },
                AnswerView::Listed(names) => match names {
                    Some(ns) => match first_hid_name(ns) {
                        Some(id) => final(self).hid_id_spec() == id && final(self).previous_driver_spec()
                            == old(self).previous_driver_spec() && r@ == StepView::ReadLink(
                            old(self).driver_link_spec(id),
                        ),
                        None => *final(self) == *old(self) && r@ == StepView::Done(false),
                    },
                    None => *final(self) == *old(self) && r@ == StepView::Done(false),
                },
                AnswerView::LinkName(name) => final(self).hid_id_spec() == old(self).hid_id_spec()
                    && final(self).previous_driver_spec() == match name {
                    Some(n) => n,
                    None => Seq::<char>::empty(),
                } && r@ == StepView::Done(true),
            },
    {
        match answer {
            SysfsAnswer::Written(ok) => {
                if ok {
                    SysfsStep::List(join_path(self.sys_i2c_path.as_str(), self.i2c_address.as_str()))
                } else {
                    SysfsStep::Done(false)
                }
            },
            SysfsAnswer::Listed(names) => match names {
                Some(ns) => match select_hid_device(&ns) {
                    Some(id) => {
                        self.hid_id = id;
                        let dev = self.hid_device_path();
                        SysfsStep::ReadLink(join_path(dev.as_str(), "driver"))
                    },
                    None => SysfsStep::Done(false),
                },
                None => SysfsStep::Done(false),
            },
            SysfsAnswer::LinkName(name) => {
                match name {
                    Some(n) => {
                        self.previous_hid_driver = n;
                    },
                    None => {
                        self.previous_hid_driver = String::new();
                    },
                }
                SysfsStep::Done(true)
            },
        }
    }

    /// Disables the sensor's wake-up, finds its HID device among the entries
    /// of its I2C directory (the first whose name starts with `0018:`) and
    /// records the driver that device is bound to, carrying out each step of
    /// `seize_first` and `seize_next` through `fs`. For the answers that `fs`
    /// gave (whether the write succeeded, the entries listed, the driver's
    /// name), it succeeds exactly when the write succeeded and a HID device
    /// was listed, and then records that device and driver; on failure the
    /// manager is unchanged.
    pub fn seize_sensor<F: SysfsAccess>(&mut self, fs: &mut F) -> (r: bool)
        ensures
            exists|ok: bool, names: Option<Seq<Seq<char>>>, link: Option<Seq<char>>|
                seize_result(*old(self), *final(self), r, ok, names, link),
            r ==> has_prefix(final(self).hid_id_spec(), hid_prefix()),
            !r ==> *final(self) == *old(self),
            old(self).keeps_paths(&*final(self)),
    {
        let ghost start = *self;
        let ok = match self.seize_first() {
            SysfsStep::Write { path, value } => fs.write_value(path.as_str(), value.as_str()),
            _ => {
                proof {
                    assert(false);
                }
                false
            },
        };
        let dir = match self.seize_next(SysfsAnswer::Written(ok)) {
            SysfsStep::List(dir) => dir,
            _ => {
                assert(seize_result(start, *self, false, ok, None, None));
                return false;
            },
        };
        let listed = SysfsAnswer::Listed(fs.list_dir(dir.as_str()));
        let ghost nv: Option<Seq<Seq<char>>> = match listed@ {
            AnswerView::Listed(x) => x,
            _ => None,
        };
        proof {
            if let Some(ns) = nv {
                lemma_first_hid_name_prefix(ns);
            }
        }
        let link = match self.seize_next(listed) {
            SysfsStep::ReadLink(link) => link,
            _ => {
                assert(seize_result(start, *self, false, ok, nv, None));
                return false;
            },
        };
        let linked = SysfsAnswer::LinkName(fs.link_target_name(link.as_str()));
        let ghost lv: Option<Seq<char>> = match linked@ {
            AnswerView::LinkName(x) => x,
            _ => None,
        };
        let _ = self.seize_next(linked);
        assert(seize_result(start, *self, true, ok, nv, lv));
        true
    }

    /// The write that gives the sensor back: `enabled` to its wake-up file,
    /// when a HID device was recorded; none otherwise.
    pub fn release_write(&self) -> (r: Option<(String, String)>)
        ensures
            match r {
                Some(w) => self.hid_id_spec().len() > 0 && w.0@ == self.wakeup_path_spec() && w.1@ == "enabled"@,
                None => self.hid_id_spec().len() == 0,
            },
    {
        if self.hid_id.as_str().unicode_len() == 0 {
            None
        } else {
            Some((self.wakeup_path(), string_from_str("enabled")))
        }
    }

    /// Re-enables the sensor's wake-up, if the sensor was seized: carries out
    /// `release_write` through `fs` (its outcome is ignored).
    pub fn release_sensor<F: SysfsAccess>(&mut self, fs: &mut F)
        ensures
            *final(self) == *old(self),
    {
        if let Some((path, value)) = self.release_write() {
            let _ = fs.write_value(path.as_str(), value.as_str());
        }
    }
}

/// A step of taking the sensor over, for the file system to carry out.
#[derive(Debug, Clone, PartialEq, Eq)]
pub enum SysfsStep {
    /// Write `value` to the file at `path`.
    Write { path: String, value: String },
    /// List the entries of the directory at this path.
    List(String),
    /// Read the name of the target of the link at this path.
    ReadLink(String),
    /// Finished: whether the sensor is taken over.
    Done(bool),
}

/// What the file system answered to a step.
#[derive(Debug, Clone, PartialEq, Eq)]
pub enum SysfsAnswer {
    /// Whether the write succeeded.
    Written(bool),
    /// The entries of the directory, or `None` when it cannot be read.
    Listed(Option<Vec<String>>),
    /// The name of the link's target, or `None` when it cannot be read.
    LinkName(Option<String>),
}

pub enum StepView {
    Write(Seq<char>, Seq<char>),
    List(Seq<char>),
    ReadLink(Seq<char>),
    Done(bool),
}

pub enum AnswerView {
    Written(bool),
    Listed(Option<Seq<Seq<char>>>),
    LinkName(Option<Seq<char>>),
}

impl View for SysfsStep {
    type V = StepView;

    open spec fn view(&self) -> StepView {
        match self {
            SysfsStep::Write { path, value } => StepView::Write(path@, value@),
            SysfsStep::List(p) => StepView::List(p@),
            SysfsStep::ReadLink(p) => StepView::ReadLink(p@),
            SysfsStep::Done(b) => StepView::Done(*b),
        }
    }
}

impl View for SysfsAnswer {
    type V = AnswerView;

    open spec fn view(&self) -> AnswerView {
        match self {
            SysfsAnswer::Written(b) => AnswerView::Written(*b),
            SysfsAnswer::Listed(names) => AnswerView::Listed(
                match names {
                    Some(ns) => Some(ns.deep_view()),
                    None => None,
                },
            ),
            SysfsAnswer::LinkName(n) => AnswerView::LinkName(
                match n {
                    Some(s) => Some(s@),
                    None => None,
                },
            ),
        }
    }
}

/// Whether a listing was read and names a HID device.
pub open spec fn lists_hid_device(names: Option<Seq<Seq<char>>>) -> bool {
    match names {
        Some(ns) => first_hid_name(ns) is Some,
        None => false,
    }
}

/// How taking the sensor over ends, given the file system's answers: whether
/// disabling the wake-up succeeded (`ok`), the entries of the I2C directory
/// (`names`, `None` when unreadable) and the driver link's target (`link`).
/// It succeeds exactly when the write succeeded and a HID device is listed;
/// it then records the first HID device and the driver (empty when the link
/// is unreadable), and otherwise changes nothing.
pub open spec fn seize_result(
    before: HardwareManager,
    after: HardwareManager,
    r: bool,
    ok: bool,
    names: Option<Seq<Seq<char>>>,
    link: Option<Seq<char>>,
) -> bool {
    &&& r == (ok && lists_hid_device(names))
    &&& before.keeps_paths(&after)
    &&& !r ==> after == before
    &&& r ==> after.hid_id_spec() == first_hid_name(names->0)->0 && after.previous_driver_spec() == match link {
        Some(n) => n,
        None => Seq::<char>::empty(),
    }
}

proof fn lemma_first_hid_name_prefix(names: Seq<Seq<char>>)
    ensures
        first_hid_name(names) matches Some(s) ==> has_prefix(s, hid_prefix()),
    decreases names.len(),
{
    if names.len() > 0 && !has_prefix(names[0], hid_prefix()) {
        lemma_first_hid_name_prefix(names.drop_first());
    }
}

} // verus!
