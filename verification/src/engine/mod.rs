//! Decimal formatting of setpoints and the registry of connected power supplies.

pub mod helpers;
pub mod setpoint;

use vstd::prelude::*;

use crate::engine::helpers::DeviceIdentity;
use crate::engine::setpoint::Setpoint;
use crate::engine::helpers::SerialPortInfo;
use crate::engine::helpers::SerialPortType;
use crate::text::chars_contains_ignore_ascii_case;
use crate::text::chars_in_bytes;
use crate::text::chars_of;
use crate::text::char_utf8_width;
use crate::text::is_byte_boundary;
use crate::text::lemma_utf8_len_concat;
use crate::text::lemma_utf8_len_take_increasing;
use crate::text::lemma_utf8_len_take_le;
use crate::text::lemma_utf8_len_zeros;
use crate::text::contains_ignore_ascii_case;
use crate::text::push_zeros;
use crate::text::starts_with_chars;
use crate::text::trim;
use crate::text::trimmed_chars;
use crate::text::utf8_len;
use crate::text::zeros;

verus! {

// ------------------------------------------------------------------------------
// Decimal formatting
// ------------------------------------------------------------------------------

/// Whether `s` holds exactly one `.`, at index `k`.
pub open spec fn single_dot_at(s: Seq<char>, k: int) -> bool {
    &&& 0 <= k < s.len()
    &&& s[k] == '.'
    &&& forall|j: int| 0 <= j < s.len() && j != k ==> #[trigger] s[j] != '.'
}

/// Whether `s` holds exactly one `.`.
pub open spec fn has_single_dot(s: Seq<char>) -> bool {
    exists|k: int| single_dot_at(s, k)
}

/// The index of the only `.` of `s`.
pub open spec fn dot_index(s: Seq<char>) -> int {
    choose|k: int| single_dot_at(s, k)
}

/// The characters after the only `.` of `s`.
pub open spec fn decimal_part(s: Seq<char>) -> Seq<char> {
    s.skip(dot_index(s) + 1)
}

/// Whether `format_decimal(s, n)` returns rather than panics: when the decimal
/// part is cut, the cut at byte `n` must fall between two characters.
pub open spec fn format_decimal_defined(s: Seq<char>, n: nat) -> bool {
    has_single_dot(s) && utf8_len(decimal_part(s)) > n ==> is_byte_boundary(decimal_part(s), n)
}

/// What `format_decimal(s, n)` gives. Byte counts are those of the UTF-8
/// encoding, as `str::len` and slicing count them.
/// - no `.`: `s`, a `.` and `n` zeros;
/// - one `.` with fewer than `n` bytes after it: `s` padded with zeros up to `n` bytes;
/// - one `.` with more than `n` bytes after it: the decimal part cut to its first `n` bytes;
/// - otherwise `s` unchanged.
pub open spec fn spec_format_decimal(s: Seq<char>, n: nat) -> Seq<char> {
    if !s.contains('.') {
        s + seq!['.'] + zeros(n)
    } else if has_single_dot(s) {
        let k = dot_index(s);
        let dec = decimal_part(s);
        let b = utf8_len(dec);
        if b < n {
            s + zeros((n - b) as nat)
        } else if b > n {
            s.take(k + 1) + dec.take(chars_in_bytes(dec, n))
        } else {
            s
        }
    } else {
        s
    }
}

/// Only one index can hold the only dot.
pub(crate) proof fn lemma_single_dot_unique(s: Seq<char>, k: int)
    requires
        single_dot_at(s, k),
    ensures
        has_single_dot(s),
        dot_index(s) == k,
{
    let j = dot_index(s);
    assert(single_dot_at(s, j));
    if j != k {
        assert(s[j] != '.');
    }
}


/// Law: from a value with at most one `.`, `format_decimal` makes a value with
/// exactly one `.`, followed by exactly `n` bytes of decimals; the part before
/// the `.` is kept.
pub proof fn law_format_decimal_width(s: Seq<char>, n: nat)
    requires
        format_decimal_defined(s, n),
        !s.contains('.') || has_single_dot(s),
    ensures
        has_single_dot(spec_format_decimal(s, n)),
        utf8_len(decimal_part(spec_format_decimal(s, n))) == n,
        s.contains('.') ==> spec_format_decimal(s, n).take(dot_index(s) + 1) == s.take(
            dot_index(s) + 1,
        ),
        !s.contains('.') ==> spec_format_decimal(s, n).take(s.len() as int) == s,
{
    let r = spec_format_decimal(s, n);
    if !s.contains('.') {
        let k = s.len() as int;
        assert forall|j: int| 0 <= j < r.len() && j != k implies #[trigger] r[j] != '.' by {
            if j < k {
                assert(r[j] == s[j]);
            } else {
                assert(r[j] == '0');
            }
        }
        assert(single_dot_at(r, k));
        lemma_single_dot_unique(r, k);
        assert(decimal_part(r) =~= zeros(n));
        lemma_utf8_len_zeros(n);
        assert(r.take(k) =~= s);
    } else {
        let k = dot_index(s);
        assert(single_dot_at(s, k));
        let dec = decimal_part(s);
        let b = utf8_len(dec);
        if b < n {
            assert forall|j: int| 0 <= j < r.len() && j != k implies #[trigger] r[j] != '.' by {
                if j < s.len() {
                    assert(r[j] == s[j]);
                } else {
                    assert(r[j] == '0');
                }
            }
            assert(single_dot_at(r, k));
            lemma_single_dot_unique(r, k);
            assert(decimal_part(r) =~= dec + zeros((n - b) as nat));
            lemma_utf8_len_concat(dec, zeros((n - b) as nat));
            lemma_utf8_len_zeros((n - b) as nat);
        } else if b > n {
            let m = chars_in_bytes(dec, n);
            assert(0 <= m <= dec.len() && utf8_len(dec.take(m)) == n);
            assert forall|j: int| 0 <= j < r.len() && j != k implies #[trigger] r[j] != '.' by {
                if j <= k {
                    assert(r[j] == s[j]);
                } else {
                    assert(r[j] == dec[j - k - 1]);
                    assert(dec[j - k - 1] == s[j]);
                }
            }
            assert(single_dot_at(r, k));
            lemma_single_dot_unique(r, k);
            assert(decimal_part(r) =~= dec.take(m));
        } else {
            assert(r == s);
        }
        assert(r.take(k + 1) =~= s.take(k + 1));
    }
}

/// Law: `format_decimal` only appends or cuts. A value without a `.`, or with
/// one `.` and at most `n` bytes of decimals, is kept whole as the beginning of
/// the result, and what follows it is a `.` (only when the value had none) and
/// then zeros. A value with one `.` and at least `n` bytes of decimals is cut:
/// the result is a beginning of the value. A value with several `.` is kept
/// as it is.
pub proof fn law_format_decimal_appends_or_cuts(s: Seq<char>, n: nat)
    requires
        format_decimal_defined(s, n),
    ensures
        ({
            let r = spec_format_decimal(s, n);
            &&& (!s.contains('.') || (has_single_dot(s) && utf8_len(decimal_part(s)) <= n)) ==> {
                &&& s.is_prefix_of(r)
                &&& forall|j: int|
                    s.len() <= j < r.len() ==> (#[trigger] r[j] == '0' || (j == s.len()
                        && !s.contains('.') && r[j] == '.'))
            }
            &&& !s.contains('.') ==> r.len() == s.len() + 1 + n && r[s.len() as int] == '.'
            &&& has_single_dot(s) && utf8_len(decimal_part(s)) >= n ==> r.is_prefix_of(s)
            &&& s.contains('.') && !has_single_dot(s) ==> r == s
        }),
{
    let r = spec_format_decimal(s, n);
    if !s.contains('.') {
        assert(s =~= r.subrange(0, s.len() as int));
    } else if has_single_dot(s) {
        let k = dot_index(s);
        let dec = decimal_part(s);
        let b = utf8_len(dec);
        if b < n {
            assert(s =~= r.subrange(0, s.len() as int));
        } else if b > n {
            let m = chars_in_bytes(dec, n);
            assert(0 <= m <= dec.len() && utf8_len(dec.take(m)) == n);
            assert(r =~= s.subrange(0, r.len() as int));
        } else {
            assert(s =~= s.subrange(0, s.len() as int));
        }
    }
}

/// Law: formatting a formatted value again changes nothing.
pub proof fn law_format_decimal_idempotent(s: Seq<char>, n: nat)
    requires
        format_decimal_defined(s, n),
    ensures
        format_decimal_defined(spec_format_decimal(s, n), n),
        spec_format_decimal(spec_format_decimal(s, n), n) == spec_format_decimal(s, n),
{
    let r = spec_format_decimal(s, n);
    if !s.contains('.') || has_single_dot(s) {
        law_format_decimal_width(s, n);
        let k = dot_index(r);
        assert(single_dot_at(r, k));
        assert(r.contains('.')) by {
            assert(r[k] == '.');
        }
    }
}

/// Where the dots of a string are: none, exactly one, or at least two.
pub(crate) enum DotScan {
    NoDot,
    OneDot(usize),
    SeveralDots,
}

/// Finds the dots of `v`.
pub(crate) fn scan_dots(v: &Vec<char>) -> (r: DotScan)
    ensures
        r is NoDot <==> !v@.contains('.'),
        r matches DotScan::OneDot(k) ==> single_dot_at(v@, k as int),
        r is SeveralDots ==> v@.contains('.') && !has_single_dot(v@),
{
    let mut first: Option<usize> = None;
    let mut i: usize = 0;
    while i < v.len()
        invariant
            i <= v@.len(),
            first is None ==> forall|j: int| 0 <= j < i ==> v@[j] != '.',
            first matches Some(k) ==> k < i && v@[k as int] == '.' && forall|j: int|
                0 <= j < i && j != k ==> v@[j] != '.',
        decreases v.len() - i,
    {
        if v[i] == '.' {
            match first {
                None => {
                    first = Some(i);
                },
                Some(k) => {
                    assert(v@.contains('.'));
                    assert forall|m: int| !single_dot_at(v@, m) by {
                        if single_dot_at(v@, m) {
                            if m == k {
                                assert(v@[i as int] != '.');
                            } else {
                                assert(v@[k as int] != '.');
                            }
                        }
                    }
                    return DotScan::SeveralDots;
                },
            }
        }
        i = i + 1;
    }
    match first {
        None => {
            assert(!v@.contains('.'));
            DotScan::NoDot
        },
        Some(k) => DotScan::OneDot(k),
    }
}

/// Result of walking the decimal part byte by byte up to a limit.
enum Cut {
    /// The decimal part holds this many bytes, no more than the limit.
    Within(usize),
    /// The decimal part holds more bytes than the limit; the limit falls after
    /// this many characters.
    Beyond(usize),
}

/// Measures `dec`, in UTF-8 bytes, against `n`.
fn measure_decimals(dec: &Vec<char>, n: usize) -> (r: Cut)
    requires
        utf8_len(dec@) > n ==> is_byte_boundary(dec@, n as nat),
    ensures
        r matches Cut::Within(b) ==> b == utf8_len(dec@) && b <= n,
        r matches Cut::Beyond(m) ==> utf8_len(dec@) > n && m == chars_in_bytes(dec@, n as nat)
            && 0 <= m <= dec@.len() && utf8_len(dec@.take(m as int)) == n,
{
    let mut sum: usize = 0;
    let mut i: usize = 0;
    assert(dec@.take(0) =~= Seq::<char>::empty());
    while i < dec.len()
        invariant
            i <= dec@.len(),
            sum <= n,
            sum == utf8_len(dec@.take(i as int)),
            utf8_len(dec@) > n ==> is_byte_boundary(dec@, n as nat),
        decreases dec.len() - i,
    {
        let w = char_utf8_width(dec[i]);
        assert(dec@.take(i + 1).drop_last() =~= dec@.take(i as int));
        if w > n - sum {
            proof {
                lemma_utf8_len_take_le(dec@, i + 1);
                let m = chars_in_bytes(dec@, n as nat);
                assert(0 <= m <= dec@.len() && utf8_len(dec@.take(m)) == n);
                if m > i {
                    if m > i + 1 {
                        lemma_utf8_len_take_increasing(dec@, i + 1, m);
                    }
                    assert(false);
                } else if m < i {
                    lemma_utf8_len_take_increasing(dec@, m, i as int);
                    assert(false);
                }
            }
            return Cut::Beyond(i);
        }
        sum = sum + w;
        i = i + 1;
    }
    assert(dec@.take(dec@.len() as int) =~= dec@);
    Cut::Within(sum)
}

/// Whether cutting the UTF-8 encoding of `dec` at byte `n`, when it is longer,
/// falls between two characters.
fn cut_is_defined(dec: &Vec<char>, n: usize) -> (b: bool)
    ensures
        b == (utf8_len(dec@) > n ==> is_byte_boundary(dec@, n as nat)),
{
    let mut sum: usize = 0;
    let mut i: usize = 0;
    assert(dec@.take(0) =~= Seq::<char>::empty());
    while i < dec.len()
        invariant
            i <= dec@.len(),
            sum <= n,
            sum == utf8_len(dec@.take(i as int)),
        decreases dec.len() - i,
    {
        if sum == n {
            assert(is_byte_boundary(dec@, n as nat));
            return true;
        }
        let w = char_utf8_width(dec[i]);
        assert(dec@.take(i + 1).drop_last() =~= dec@.take(i as int));
        if w > n - sum {
            proof {
                assert forall|m: int| 0 <= m <= dec@.len() implies #[trigger] utf8_len(
                    dec@.take(m),
                ) != n by {
                    if m > i + 1 {
                        lemma_utf8_len_take_increasing(dec@, i + 1, m);
                    } else if m < i {
                        lemma_utf8_len_take_increasing(dec@, m, i as int);
                    }
                }
                lemma_utf8_len_take_le(dec@, i + 1);
            }
            return false;
        }
        sum = sum + w;
        i = i + 1;
    }
    assert(dec@.take(dec@.len() as int) =~= dec@);
    true
}

/// Whether `format_decimal(value, decimal_places)` returns rather than panics.
pub fn format_decimal_is_defined(value: &str, decimal_places: usize) -> (b: bool)
    ensures
        b == format_decimal_defined(value@, decimal_places as nat),
{
    let v = chars_of(value);
    match scan_dots(&v) {
        DotScan::OneDot(k) => {
            proof {
                lemma_single_dot_unique(v@, k as int);
            }
            let len = v.len();
            assert(k < len);
            let dec = chars_after(&v, k + 1);
            cut_is_defined(&dec, decimal_places)
        },
        _ => true,
    }
}

/// The characters of `v` from index `from` on.
pub(crate) fn chars_after(v: &Vec<char>, from: usize) -> (r: Vec<char>)
    requires
        from <= v@.len(),
    ensures
        r@ == v@.skip(from as int),
{
    let mut r: Vec<char> = Vec::new();
    let mut i: usize = from;
    while i < v.len()
        invariant
            from <= i <= v@.len(),
            r@ =~= v@.subrange(from as int, i as int),
        decreases v.len() - i,
    {
        r.push(v[i]);
        i = i + 1;
    }
    r
}

/// Format a decimal string to the specified number of decimal places.
///
/// - If fewer decimals than required, pads with zeros
/// - If more decimals than required, truncates excess decimals
///
/// Decimals are counted in bytes of UTF-8, as the slicing of a `str` counts
/// them; the caller makes sure the cut falls between two characters.
pub fn format_decimal(value: &str, decimal_places: usize) -> (res: String)
    requires
        format_decimal_defined(value@, decimal_places as nat),
    ensures
        res@ == spec_format_decimal(value@, decimal_places as nat),
{
    let v = chars_of(value);
    match scan_dots(&v) {
        DotScan::NoDot => {
            let mut res = String::from_str(value);
            proof {
                reveal_strlit(".");
            }
            res.append(".");
            push_zeros(&mut res, decimal_places);
            res
        },
        DotScan::OneDot(k) => {
            proof {
                lemma_single_dot_unique(v@, k as int);
            }
            let len = v.len();
            assert(k < len);
            let dec = chars_after(&v, k + 1);
            match measure_decimals(&dec, decimal_places) {
                Cut::Within(b) => {
                    if b < decimal_places {
                        let mut res = String::from_str(value);
                        push_zeros(&mut res, decimal_places - b);
                        res
                    } else {
                        String::from_str(value)
                    }
                },
                Cut::Beyond(m) => {
                    assert(dec@.len() == len - k - 1);
                    let head = value.substring_char(0, k + 1 + m);
                    assert(head@ =~= v@.take(k + 1) + dec@.take(m as int));
                    String::from_str(head)
                },
            }
        },
        DotScan::SeveralDots => String::from_str(value),
    }
}

// ------------------------------------------------------------------------------
// Errors
// ------------------------------------------------------------------------------

/// Why an engine operation failed.
#[derive(Debug)]
pub enum EngineError {
    /// No power supply instance has this name.
    InstanceNotFound(String),
    /// No serial port carries this USB serial number.
    PortNotFound(String),
    /// This voltage is not a number.
    InvalidVoltage(String),
    /// This current is not a number.
    InvalidCurrent(String),
    /// This voltage lies outside 0 to 30 V.
    VoltageOutOfRange(String),
    /// This current lies outside 0 to 5 A.
    CurrentOutOfRange(String),
    /// The device or its serial link failed; the text says how.
    Device(String),
}

/// The text of an engine error.
pub open spec fn spec_error_message(e: EngineError) -> Seq<char> {
    match e {
        EngineError::InstanceNotFound(name) => "Power supply instance '"@ + name@ + "' not found"@,
        EngineError::PortNotFound(sn) => "No serial port found with serial number: "@ + sn@,
        EngineError::InvalidVoltage(v) => "Invalid voltage value: "@ + v@,
        EngineError::InvalidCurrent(c) => "Invalid current value: "@ + c@,
        EngineError::VoltageOutOfRange(v) => "Voltage value out of range (0 to 30 V): "@ + v@,
        EngineError::CurrentOutOfRange(c) => "Current value out of range (0 to 5 A): "@ + c@,
        EngineError::Device(text) => text@,
    }
}

impl EngineError {
    /// The text of the error, as it is shown to the user.
    pub fn message(&self) -> (m: String)
        ensures
            m@ == spec_error_message(*self),
    {
        match self {
            EngineError::InstanceNotFound(name) => {
                let mut m = String::from_str("Power supply instance '");
                m.append(name.as_str());
                m.append("' not found");
                m
            },
            EngineError::PortNotFound(sn) => {
                let mut m = String::from_str("No serial port found with serial number: ");
                m.append(sn.as_str());
                m
            },
            EngineError::InvalidVoltage(v) => {
                let mut m = String::from_str("Invalid voltage value: ");
                m.append(v.as_str());
                m
            },
            EngineError::InvalidCurrent(c) => {
                let mut m = String::from_str("Invalid current value: ");
                m.append(c.as_str());
                m
            },
            EngineError::VoltageOutOfRange(v) => {
                let mut m = String::from_str("Voltage value out of range (0 to 30 V): ");
                m.append(v.as_str());
                m
            },
            EngineError::CurrentOutOfRange(c) => {
                let mut m = String::from_str("Current value out of range (0 to 5 A): ");
                m.append(c.as_str());
                m
            },
            EngineError::Device(text) => text.clone(),
        }
    }
}

// ------------------------------------------------------------------------------
// Registry of power supply instances
// ------------------------------------------------------------------------------

/// The status text of an instance that exists.
pub open spec fn running_status() -> Seq<char> {
    "Instance is running normally."@
}

/// Engine manages power supply runners.
///
/// Holds one runner per instance name; `R` is the handle of a connected device.
/// The names are kept in the order in which they were first connected.
pub struct Engine<R> {
    /// Active runners by device name
    runners: Vec<(String, R)>,
}

impl<R> View for Engine<R> {
    type V = Map<Seq<char>, R>;

    /// The runner of each instance name.
    closed spec fn view(&self) -> Map<Seq<char>, R> {
        Map::new(
            |k: Seq<char>| self.names().contains(k),
            |k: Seq<char>| self.runners@[self.names().index_of(k)].1,
        )
    }
}

impl<R> Engine<R> {
    /// The instance names, in the order in which they were first connected.
    pub closed spec fn names(&self) -> Seq<Seq<char>> {
        self.runners@.map_values(|e: (String, R)| e.0@)
    }

    /// No name is held twice.
    pub closed spec fn wf(&self) -> bool {
        self.names().no_duplicates()
    }

    /// Law: the names that `list_instance_names` gives are exactly the instances
    /// that `get_runner` and `get_instance_status` find, each listed once.
    pub proof fn law_listed_names_are_instances(&self)
        requires
            self.wf(),
        ensures
            self.names().no_duplicates(),
            forall|k: Seq<char>| #[trigger] self@.dom().contains(k) <==> self.names().contains(k),
            self@.dom().finite(),
            self@.dom() == self.names().to_set(),
    {
        assert(self@.dom() =~= self.names().to_set());
    }

    /// The runner under the name at index `i`.
    proof fn lemma_view_at(&self, i: int)
        requires
            self.wf(),
            0 <= i < self.runners@.len(),
        ensures
            self@.dom().contains(self.runners@[i].0@),
            self@[self.runners@[i].0@] == self.runners@[i].1,
    {
        let k = self.runners@[i].0@;
        assert(self.names()[i] == k);
        assert(self.names().contains(k));
        let j = self.names().index_of(k);
        assert(self.names()[j] == k);
        if j != i {
            assert(!self.names().no_duplicates());
        }
    }

    /// Create a new engine instance.
    pub fn new() -> (e: Self)
        ensures
            e.wf(),
            e@ == Map::<Seq<char>, R>::empty(),
            e.names() == Seq::<Seq<char>>::empty(),
    {
        let e = Engine { runners: Vec::new() };
        assert(e.names() =~= Seq::<Seq<char>>::empty());
        assert(e@ =~= Map::<Seq<char>, R>::empty());
        e
    }

    /// The index of the entry named `name`.
    fn find(&self, name: &str) -> (r: Option<usize>)
        requires
            self.wf(),
        ensures
            r matches Some(i) ==> i < self.runners@.len() && self.names()[i as int] == name@,
            r is None ==> !self.names().contains(name@),
    {
        let key = String::from_str(name);
        let mut i: usize = 0;
        while i < self.runners.len()
            invariant
                i <= self.runners@.len(),
                key@ == name@,
                forall|j: int| 0 <= j < i ==> self.names()[j] != name@,
            decreases self.runners.len() - i,
        {
            if self.runners[i].0 == key {
                return Some(i);
            }
            i = i + 1;
        }
        None
    }

    /// Connect a device by name: `runner` is the connected device, or why
    /// connecting failed. On success the runner is held under that name from
    /// now on, in place of any runner the name held before; on failure nothing
    /// changes and the reason is handed back.
    pub fn connect_device(&mut self, name: &str, runner: Result<R, String>) -> (res: Result<
        (),
        EngineError,
    >)
        requires
            old(self).wf(),
        ensures
            final(self).wf(),
            res is Ok <==> runner is Ok,
            runner matches Ok(r) ==> final(self)@ == old(self)@.insert(name@, r),
            runner is Ok ==> final(self).names() == (if old(self).names().contains(name@) {
                old(self).names()
            } else {
                old(self).names().push(name@)
            }),
            runner is Err ==> final(self)@ == old(self)@,
            runner is Err ==> final(self).names() == old(self).names(),
            runner matches Err(text) ==> (res matches Err(e) && e matches EngineError::Device(t)
                && t@ == text@),
    {
        match runner {
            Ok(r) => {
                self.insert_runner(name, r);
                Ok(())
            },
            Err(text) => Err(EngineError::Device(text)),
        }
    }

    /// Hold `runner` under `name`, in place of any runner the name held before.
    fn insert_runner(&mut self, name: &str, runner: R)
        requires
            old(self).wf(),
        ensures
            final(self).wf(),
            final(self)@ == old(self)@.insert(name@, runner),
            final(self).names() == (if old(self).names().contains(name@) {
                old(self).names()
            } else {
                old(self).names().push(name@)
            }),
    {
        let ghost before = *self;
        match self.find(name) {
            Some(i) => {
                assert(before.names()[i as int] == name@);
                assert(before.names().contains(name@));
                let key = self.runners[i].0.clone();
                self.runners.set(i, (key, runner));
                assert(self.names() =~= before.names());
                assert forall|k: Seq<char>| #[trigger]
                    self@.dom().contains(k) implies self@[k] == before@.insert(name@, runner)[k] by {
                    let j = self.names().index_of(k);
                    assert(self.names()[j] == k);
                    if k == name@ {
                        if j != i {
                            assert(!self.names().no_duplicates());
                        }
                    } else {
                        before.lemma_view_at(j);
                    }
                }
                assert(self@ =~= before@.insert(name@, runner));
            },
            None => {
                self.runners.push((String::from_str(name), runner));
                assert(self.names() =~= before.names().push(name@));
                assert forall|k: Seq<char>| #[trigger]
                    self@.dom().contains(k) implies self@[k] == before@.insert(name@, runner)[k] by {
                    let j = self.names().index_of(k);
                    assert(self.names()[j] == k);
                    if k == name@ {
                        if j != before.names().len() {
                            assert(before.names()[j] == k);
                        }
                    } else {
                        assert(j < before.names().len());
                        assert(self.runners@[j] == before.runners@[j]);
                        before.lemma_view_at(j);
                    }
                }
                assert forall|k: Seq<char>|
                    self@.dom().contains(k) <==> #[trigger] before@.insert(name@, runner).dom().contains(
                        k,
                    ) by {
                    if before.names().contains(k) {
                        let j = before.names().index_of(k);
                        assert(self.names()[j] == k);
                    }
                    if k == name@ {
                        assert(self.names()[before.names().len() as int] == k);
                    }
                }
                assert(self@ =~= before@.insert(name@, runner));
            },
        }
    }

    /// List the names of all active power supply instances.
    pub fn list_instance_names(&self) -> (names: Vec<String>)
        requires
            self.wf(),
        ensures
            crate::text::views(names@) == self.names(),
    {
        let mut names: Vec<String> = Vec::new();
        let mut i: usize = 0;
        while i < self.runners.len()
            invariant
                i <= self.runners@.len(),
                crate::text::views(names@) =~= self.names().take(i as int),
            decreases self.runners.len() - i,
        {
            let ghost prev = names@;
            names.push(self.runners[i].0.clone());
            assert(crate::text::views(names@) =~= crate::text::views(prev).push(
                self.runners@[i as int].0@,
            ));
            assert(self.names().take(i + 1) =~= self.names().take(i as int).push(
                self.names()[i as int],
            ));
            i = i + 1;
        }
        assert(self.names().take(self.runners@.len() as int) =~= self.names());
        names
    }

    /// Get the status of a power supply instance.
    pub fn get_instance_status(&self, name: &str) -> (res: Result<String, EngineError>)
        requires
            self.wf(),
        ensures
            res is Ok <==> self@.dom().contains(name@),
            res matches Ok(s) ==> s@ == running_status(),
            res matches Err(e) ==> e matches EngineError::InstanceNotFound(n) && n@ == name@,
    {
        proof {
            self.law_listed_names_are_instances();
        }
        match self.find(name) {
            Some(_) => Ok(String::from_str("Instance is running normally.")),
            None => Err(EngineError::InstanceNotFound(String::from_str(name))),
        }
    }

    /// Get a runner by name, returning an error if not found.
    pub fn get_runner(&self, name: &str) -> (res: Result<&R, EngineError>)
        requires
            self.wf(),
        ensures
            res is Ok <==> self@.dom().contains(name@),
            res matches Ok(r) ==> *r == self@[name@],
            res matches Err(e) ==> e matches EngineError::InstanceNotFound(n) && n@ == name@,
    {
        proof {
            self.law_listed_names_are_instances();
        }
        match self.find(name) {
            Some(i) => {
                proof {
                    self.lemma_view_at(i as int);
                }
                Ok(&self.runners[i].1)
            },
            None => Err(EngineError::InstanceNotFound(String::from_str(name))),
        }
    }

    /// Delete a power supply instance, handing its runner back so that its
    /// connection can be closed.
    pub fn delete_instance(&mut self, name: &str) -> (res: Result<R, EngineError>)
        requires
            old(self).wf(),
        ensures
            final(self).wf(),
            res is Ok <==> old(self)@.dom().contains(name@),
            res matches Ok(r) ==> r == old(self)@[name@],
            final(self)@ == old(self)@.remove(name@),
            final(self).names() == old(self).names().remove_value(name@),
            res matches Err(e) ==> e matches EngineError::InstanceNotFound(n) && n@ == name@,
    {
        let ghost before = *self;
        proof {
            self.law_listed_names_are_instances();
        }
        match self.find(name) {
            Some(i) => {
                proof {
                    self.lemma_view_at(i as int);
                }
                proof {
                    before.names().index_of_first_ensures(name@);
                    if before.names().index_of_first(name@) != Some(i as int) {
                        let j = before.names().index_of_first(name@)->0;
                        assert(!before.names().no_duplicates());
                    }
                }
                let (_, runner) = self.runners.remove(i);
                assert(self.names() =~= before.names().remove(i as int));
                assert(before.names().index_of(name@) == i) by {
                    let j = before.names().index_of(name@);
                    assert(before.names()[j] == name@);
                    if j != i {
                        assert(!before.names().no_duplicates());
                    }
                }
                assert(before.names().remove_value(name@) =~= before.names().remove(i as int));
                assert(self.wf()) by {
                    assert forall|a: int, b: int|
                        0 <= a < self.names().len() && 0 <= b < self.names().len() && a != b
                            implies self.names()[a] != self.names()[b] by {
                        let a2 = if a < i { a } else { a + 1 };
                        let b2 = if b < i { b } else { b + 1 };
                        assert(self.names()[a] == before.names()[a2]);
                        assert(self.names()[b] == before.names()[b2]);
                    }
                }
                assert forall|k: Seq<char>| #[trigger]
                    self@.dom().contains(k) implies self@[k] == before@.remove(name@)[k] by {
                    let j = self.names().index_of(k);
                    assert(self.names()[j] == k);
                    let j2 = if j < i { j } else { j + 1 };
                    assert(before.runners@[j2] == self.runners@[j]);
                    before.lemma_view_at(j2);
                    assert(k != name@);
                }
                assert forall|k: Seq<char>|
                    self@.dom().contains(k) <==> #[trigger] before@.remove(name@).dom().contains(
                        k,
                    ) by {
                    if self.names().contains(k) {
                        let j = self.names().index_of(k);
                        let j2 = if j < i { j } else { j + 1 };
                        assert(before.names()[j2] == k);
                        if k == name@ {
                            assert(!before.names().no_duplicates());
                        }
                    }
                    if before.names().contains(k) && k != name@ {
                        let j = before.names().index_of(k);
                        assert(j != i);
                        let j1 = if j < i { j } else { j - 1 };
                        assert(self.names()[j1] == k);
                    }
                }
                assert(self@ =~= before@.remove(name@));
                Ok(runner)
            },
            None => {
                proof {
                    before.names().index_of_first_ensures(name@);
                }
                assert(before.names().remove_value(name@) =~= before.names());
                assert(before@.remove(name@) =~= before@);
                Err(EngineError::InstanceNotFound(String::from_str(name)))
            },
        }
    }
}


/// Law: once a runner is connected under a name, looking the name up gives that
/// runner, and every other name keeps the runner it had, or stays unknown.
pub proof fn law_get_after_connect<R>(m: Map<Seq<char>, R>, name: Seq<char>, runner: R, other: Seq<char>)
    ensures
        m.insert(name, runner).dom().contains(name),
        m.insert(name, runner)[name] == runner,
        other != name ==> (m.insert(name, runner).dom().contains(other) <==> m.dom().contains(
            other,
        )),
        other != name && m.dom().contains(other) ==> m.insert(name, runner)[other] == m[other],
{
}

/// Law: once an instance is deleted its name is unknown, and every other name
/// keeps the runner it had, or stays unknown.
pub proof fn law_get_after_delete<R>(m: Map<Seq<char>, R>, name: Seq<char>, other: Seq<char>)
    ensures
        !m.remove(name).dom().contains(name),
        other != name ==> (m.remove(name).dom().contains(other) <==> m.dom().contains(other)),
        other != name && m.dom().contains(other) ==> m.remove(name)[other] == m[other],
{
}

// ------------------------------------------------------------------------------
// Setpoints
// ------------------------------------------------------------------------------

/// The setpoints that a request changes, in the order in which they are sent:
/// the voltage first, then the current.
pub open spec fn spec_setpoint_steps(voltage: Option<String>, current: Option<String>) -> Seq<
    (Setpoint, Seq<char>),
> {
    let v = match voltage {
        Some(x) => seq![(Setpoint::Voltage, x@)],
        None => seq![],
    };
    let c = match current {
        Some(x) => seq![(Setpoint::Current, x@)],
        None => seq![],
    };
    v + c
}

/// Law: every setpoint given in a request is sent, each once, and no other:
/// there is one step per given value, the voltage step (if any) comes first
/// and carries the voltage as given, the current step (if any) comes last and
/// carries the current as given.
pub proof fn law_setpoint_steps_cover_request(voltage: Option<String>, current: Option<String>)
    ensures
        ({
            let steps = spec_setpoint_steps(voltage, current);
            &&& steps.len() == (if voltage is Some { 1int } else { 0int }) + (if current is Some {
                1int
            } else {
                0int
            })
            &&& voltage matches Some(v) ==> steps[0] == (Setpoint::Voltage, v@)
            &&& current matches Some(c) ==> steps[steps.len() - 1] == (Setpoint::Current, c@)
            &&& forall|i: int| 0 <= i < steps.len() ==> (#[trigger] steps[i].0 == Setpoint::Voltage
                <==> (voltage is Some && i == 0))
        }),
{
}

impl<R> Engine<R> {
    /// The setpoints that a request of `set_power_parameters` changes, each with
    /// the value as given, in the order in which they are sent.
    pub fn setpoint_steps(voltage: Option<String>, current: Option<String>) -> (steps: Vec<
        (Setpoint, String),
    >)
        ensures
            steps@.map_values(|s: (Setpoint, String)| (s.0, s.1@)) == spec_setpoint_steps(
                voltage,
                current,
            ),
    {
        let ghost gv = voltage;
        let ghost gc = current;
        let mut steps: Vec<(Setpoint, String)> = Vec::new();
        if let Some(v) = voltage {
            steps.push((Setpoint::Voltage, v));
        }
        if let Some(c) = current {
            steps.push((Setpoint::Current, c));
        }
        assert(steps@.map_values(|s: (Setpoint, String)| (s.0, s.1@)) =~= spec_setpoint_steps(
            gv,
            gc,
        ));
        steps
    }
}

// ------------------------------------------------------------------------------
// Device discovery
// ------------------------------------------------------------------------------

/// The product name of the supported power supply, which also starts its
/// answer to `*IDN?`.
pub open spec fn korad_product() -> Seq<char> {
    "KORAD KD3005P"@
}

/// USB vendor id of the supported power supply.
pub const KORAD_USB_VID: u16 = 0x0416;

/// USB product id of the supported power supply.
pub const KORAD_USB_PID: u16 = 0x5011;

/// Whether a port is worth asking for its identity: on macOS only the
/// `/dev/cu.` call-out devices that are neither Bluetooth nor debug ports,
/// elsewhere every port.
pub open spec fn spec_keep_port(port_name: Seq<char>, macos: bool) -> bool {
    macos ==> {
        &&& "/dev/cu."@.is_prefix_of(port_name)
        &&& !contains_ignore_ascii_case(port_name, "bluetooth"@)
        &&& !contains_ignore_ascii_case(port_name, "debug"@)
    }
}

/// Law: off macOS every port is kept; on macOS a port is kept only if it is a
/// `/dev/cu.` call-out device, and never if its name mentions Bluetooth or
/// debugging in any ASCII case.
pub proof fn law_keep_port(port_name: Seq<char>)
    ensures
        spec_keep_port(port_name, false),
        spec_keep_port(port_name, true) ==> "/dev/cu."@.is_prefix_of(port_name),
        contains_ignore_ascii_case(port_name, "bluetooth"@) ==> !spec_keep_port(port_name, true),
        contains_ignore_ascii_case(port_name, "debug"@) ==> !spec_keep_port(port_name, true),
        "/dev/cu."@.is_prefix_of(port_name) && !contains_ignore_ascii_case(port_name, "bluetooth"@)
            && !contains_ignore_ascii_case(port_name, "debug"@) ==> spec_keep_port(port_name, true),
{
}

/// Whether a port, with this answer to `*IDN?` (`None` when the request failed),
/// is a Korad KD3005P: the trimmed answer starts with the product name and the
/// port is a USB port with the Korad vendor and product ids.
pub open spec fn is_korad(port: SerialPortInfo, response: Option<String>) -> bool {
    &&& response matches Some(r) && korad_product().is_prefix_of(trim(r@))
    &&& port.port_type matches SerialPortType::UsbPort(usb) && usb.vid == KORAD_USB_VID && usb.pid
        == KORAD_USB_PID
}

/// The serial number reported for a Korad port: the USB one, or `unknown`.
pub open spec fn reported_serial(port: SerialPortInfo) -> Seq<char> {
    match port.port_type {
        SerialPortType::UsbPort(usb) => match usb.serial_number {
            Some(sn) => sn@,
            None => "unknown"@,
        },
        _ => "unknown"@,
    }
}

/// The serial numbers of the Korad power supplies among `ports`, in port order,
/// where `responses[i]` is the answer of `ports[i]` to `*IDN?`.
pub open spec fn korad_serials(ports: Seq<SerialPortInfo>, responses: Seq<Option<String>>) -> Seq<
    Seq<char>,
>
    decreases ports.len(),
{
    if ports.len() == 0 {
        seq![]
    } else {
        let rest = korad_serials(ports.drop_last(), responses.drop_last());
        if is_korad(ports.last(), responses.last()) {
            rest.push(reported_serial(ports.last()))
        } else {
            rest
        }
    }
}

impl<R> Engine<R> {
    /// Whether a port is worth asking for its identity; `macos` tells whether the
    /// server runs on macOS.
    pub fn keep_port(port_name: &str, macos: bool) -> (b: bool)
        ensures
            b == spec_keep_port(port_name@, macos),
    {
        if !macos {
            return true;
        }
        let name = chars_of(port_name);
        let prefix = chars_of("/dev/cu.");
        let bluetooth = chars_of("bluetooth");
        let debug = chars_of("debug");
        starts_with_chars(&name, &prefix) && !chars_contains_ignore_ascii_case(&name, &bluetooth)
            && !chars_contains_ignore_ascii_case(&name, &debug)
    }

    /// Check if a serial port is a Korad KD3005P power supply.
    ///
    /// `response` is the answer of the port to the `*IDN?` command, or `None`
    /// when the request failed. The answer must match the Korad KD3005P
    /// signature and the port the Korad USB VID/PID.
    pub fn is_korad_serial_port(port_info: &SerialPortInfo, response: &Option<String>) -> (res:
        Option<DeviceIdentity>)
        ensures
            res is Some <==> is_korad(*port_info, *response),
            res matches Some(d) ==> d.product@ == korad_product() && d.serial_number@
                == reported_serial(*port_info),
    {
        match response {
            Some(r) => {
                let trimmed = trimmed_chars(r.as_str());
                let signature = chars_of("KORAD KD3005P");
                if !starts_with_chars(&trimmed, &signature) {
                    return None;
                }
                if let SerialPortType::UsbPort(usb_info) = &port_info.port_type {
                    if usb_info.vid == KORAD_USB_VID && usb_info.pid == KORAD_USB_PID {
                        let serial_number = match &usb_info.serial_number {
                            Some(sn) => sn.clone(),
                            None => String::from_str("unknown"),
                        };
                        return Some(
                            DeviceIdentity {
                                product: String::from_str("KORAD KD3005P"),
                                serial_number,
                            },
                        );
                    }
                }
                None
            },
            None => None,
        }
    }

    /// List the Korad KD3005P power supplies among the given ports.
    ///
    /// `responses[i]` is the answer of `ports[i]` to `*IDN?`, or `None` when the
    /// request failed; the devices come in port order.
    pub fn available_devices(ports: &Vec<SerialPortInfo>, responses: &Vec<Option<String>>) -> (devices:
        Vec<DeviceIdentity>)
        requires
            ports@.len() == responses@.len(),
        ensures
            devices@.map_values(|d: DeviceIdentity| d.serial_number@) == korad_serials(
                ports@,
                responses@,
            ),
            forall|i: int| 0 <= i < devices@.len() ==> #[trigger] devices@[i].product@ == korad_product(),
    {
        let mut devices: Vec<DeviceIdentity> = Vec::new();
        let mut i: usize = 0;
        while i < ports.len()
            invariant
                i <= ports@.len() == responses@.len(),
                devices@.map_values(|d: DeviceIdentity| d.serial_number@) == korad_serials(
                    ports@.take(i as int),
                    responses@.take(i as int),
                ),
                forall|k: int| 0 <= k < devices@.len() ==> #[trigger] devices@[k].product@
                    == korad_product(),
            decreases ports.len() - i,
        {
            let ghost prev = devices@;
            assert(ports@.take(i + 1).drop_last() =~= ports@.take(i as int));
            assert(responses@.take(i + 1).drop_last() =~= responses@.take(i as int));
            assert(ports@.take(i + 1).last() == ports@[i as int]);
            assert(responses@.take(i + 1).last() == responses@[i as int]);
            if let Some(device_identity) = Self::is_korad_serial_port(&ports[i], &responses[i]) {
                devices.push(device_identity);
                assert(devices@.map_values(|d: DeviceIdentity| d.serial_number@) =~= prev.map_values(
                    |d: DeviceIdentity| d.serial_number@,
                ).push(device_identity.serial_number@));
            }
            i = i + 1;
        }
        assert(ports@.take(ports@.len() as int) =~= ports@);
        assert(responses@.take(responses@.len() as int) =~= responses@);
        devices
    }
}


} // verus!
