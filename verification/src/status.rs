//! The device's status record, the version number in it, and the record of
//! the network link.
//!
//! A version is text: up to three numbers separated by dots. Each number is
//! read the way an unsigned byte is read from text: an optional plus sign and
//! then nothing but decimal digits, with a value of at most 255. A field that
//! does not read as such a number counts as zero, and so does a missing one.

use vstd::prelude::*;

verus! {

/// The byte that separates the numbers of a version.
pub const DOT: u8 = 46;

/// The sign that may stand before a number.
pub const PLUS: u8 = 43;

/// The digit zero.
pub const ZERO: u8 = 48;

/// The digit nine.
pub const NINE: u8 = 57;

/// How many bytes come before the first dot.
pub open spec fn dot_at(text: Seq<u8>) -> int
    decreases text.len(),
{
    if text.len() == 0 || text[0] == DOT {
        0
    } else {
        1 + dot_at(text.drop_first())
    }
}

/// Field `k` of a text that dots divide into fields, counting from zero, if
/// the text has that many fields.
pub open spec fn field(text: Seq<u8>, k: nat) -> Option<Seq<u8>>
    decreases k,
{
    if k == 0 {
        Some(text.take(dot_at(text)))
    } else if dot_at(text) < text.len() {
        field(text.skip(dot_at(text) + 1), (k - 1) as nat)
    } else {
        None
    }
}

/// Whether every byte is a decimal digit.
pub open spec fn all_digits(digits: Seq<u8>) -> bool {
    forall|i: int| 0 <= i < digits.len() ==> ZERO <= #[trigger] digits[i] <= NINE
}

/// The number that a run of decimal digits stands for.
pub open spec fn digits_value(digits: Seq<u8>) -> int
    decreases digits.len(),
{
    if digits.len() == 0 {
        0
    } else {
        digits_value(digits.drop_last()) * 10 + (digits.last() - ZERO)
    }
}

/// The digits of a number: the text without a leading plus sign.
pub open spec fn unsigned_part(text: Seq<u8>) -> Seq<u8> {
    if text.len() > 0 && text[0] == PLUS {
        text.drop_first()
    } else {
        text
    }
}

/// The byte that a text stands for, if it stands for one.
pub open spec fn spec_parse_u8(text: Seq<u8>) -> Option<u8> {
    if unsigned_part(text).len() > 0 && all_digits(unsigned_part(text)) && digits_value(
        unsigned_part(text),
    ) <= u8::MAX {
        Some(digits_value(unsigned_part(text)) as u8)
    } else {
        None
    }
}

/// Number `k` of a version: what field `k` stands for, zero if there is no
/// such field or if it stands for nothing.
pub open spec fn spec_component(text: Seq<u8>, k: nat) -> u8 {
    match field(text, k) {
        Some(f) => match spec_parse_u8(f) {
            Some(v) => v,
            None => 0,
        },
        None => 0,
    }
}

/// The value of a run of digits never goes down when a digit is added, so a
/// run whose beginning is already too large for a byte stays too large.
pub proof fn lemma_digits_value_grows(digits: Seq<u8>, k: int)
    requires
        all_digits(digits),
        0 <= k <= digits.len(),
    ensures
        0 <= digits_value(digits.take(k)) <= digits_value(digits),
    decreases digits.len() - k,
{
    if k == digits.len() {
        assert(digits.take(k) =~= digits);
        lemma_digits_value_nonnegative(digits);
    } else {
        lemma_digits_value_grows(digits, k + 1);
        assert(digits.take(k + 1).drop_last() =~= digits.take(k));
        assert(ZERO <= digits.take(k + 1).last());
        lemma_digits_value_nonnegative(digits.take(k));
    }
}

/// A run of digits stands for a number that is not negative.
pub proof fn lemma_digits_value_nonnegative(digits: Seq<u8>)
    requires
        all_digits(digits),
    ensures
        0 <= digits_value(digits),
    decreases digits.len(),
{
    if digits.len() > 0 {
        assert(all_digits(digits.drop_last())) by {
            assert forall|i: int| 0 <= i < digits.drop_last().len() implies ZERO
                <= #[trigger] digits.drop_last()[i] <= NINE by {
                assert(digits.drop_last()[i] == digits[i]);
            }
        }
        lemma_digits_value_nonnegative(digits.drop_last());
        assert(ZERO <= digits.last());
    }
}

/// Reads the bytes of `text` from `start` to `end` as an unsigned byte.
pub fn parse_u8(text: &[u8], start: usize, end: usize) -> (r: Option<u8>)
    requires
        start <= end <= text@.len(),
    ensures
        r == spec_parse_u8(text@.subrange(start as int, end as int)),
{
    let ghost whole = text@.subrange(start as int, end as int);
    let mut i: usize = start;
    if i < end && text[i] == PLUS {
        i += 1;
    }
    let ghost digits = unsigned_part(whole);
    let first = i;
    assert(digits =~= text@.subrange(first as int, end as int));
    if i == end {
        return None;
    }
    let mut value: u32 = 0;
    while i < end
        invariant
            first <= i <= end <= text@.len(),
            digits == text@.subrange(first as int, end as int),
            digits == unsigned_part(text@.subrange(start as int, end as int)),
            all_digits(digits.take(i - first)),
            value == digits_value(digits.take(i - first)),
            value <= u8::MAX,
        decreases end - i,
    {
        let b = text[i];
        assert(digits[i - first] == b);
        assert(digits.take(i - first + 1).drop_last() =~= digits.take(i - first));
        if b < ZERO || b > NINE {
            return None;
        }
        assert(all_digits(digits.take(i - first + 1))) by {
            assert forall|j: int| 0 <= j < i - first + 1 implies ZERO <= #[trigger] digits.take(
                i - first + 1,
            )[j] <= NINE by {
                if j < i - first {
                    assert(digits.take(i - first)[j] == digits[j]);
                }
            }
        }
        value = value * 10 + (b - ZERO) as u32;
        if value > 255 {
            proof {
                if all_digits(digits) {
                    lemma_digits_value_grows(digits, i - first + 1);
                }
            }
            return None;
        }
        i += 1;
    }
    assert(digits.take(i - first) =~= digits);
    Some(value as u8)
}

/// The index of the first dot of `text` at or after `start`, or the length
/// of `text` if there is none.
fn find_dot(text: &[u8], start: usize) -> (end: usize)
    requires
        start <= text@.len(),
    ensures
        start <= end <= text@.len(),
        end - start == dot_at(text@.skip(start as int)),
{
    let mut i: usize = start;
    while i < text.len() && text[i] != DOT
        invariant
            start <= i <= text@.len(),
            dot_at(text@.skip(start as int)) == (i - start) + dot_at(text@.skip(i as int)),
        decreases text@.len() - i,
    {
        assert(text@.skip(i as int).drop_first() =~= text@.skip(i + 1));
        i += 1;
    }
    i
}

/// Reads the three numbers of a version.
pub fn parse_version(text: &[u8]) -> (version: [u8; 3])
    ensures
        forall|k: int| 0 <= k < 3 ==> version@[k] == spec_component(text@, k as nat),
{
    let mut version: [u8; 3] = [0, 0, 0];
    let mut k: usize = 0;
    let mut start: usize = 0;
    let mut more = true;
    assert(text@.skip(0) =~= text@);
    while k < 3 && more
        invariant
            k <= 3,
            start <= text@.len(),
            more ==> forall|j: nat|
                j >= k ==> #[trigger] field(text@, j) == field(
                    text@.skip(start as int),
                    (j - k) as nat,
                ),
            !more ==> forall|j: nat| j >= k ==> #[trigger] field(text@, j) is None,
            forall|m: int| 0 <= m < k ==> version@[m] == spec_component(text@, m as nat),
            forall|m: int| k <= m < 3 ==> version@[m] == 0,
        decreases 3 - k,
    {
        let end = find_dot(text, start);
        let ghost rest = text@.skip(start as int);
        assert(field(text@, k as nat) == field(rest, 0));
        assert(rest.take(dot_at(rest)) =~= text@.subrange(start as int, end as int));
        match parse_u8(text, start, end) {
            Some(v) => {
                version[k] = v;
            },
            None => {},
        }
        if end < text.len() {
            assert(rest.skip(dot_at(rest) + 1) =~= text@.skip(end + 1));
            assert forall|j: nat| j >= k + 1 implies #[trigger] field(text@, j) == field(
                text@.skip(end + 1),
                (j - (k + 1)) as nat,
            ) by {
                assert(field(text@, j) == field(rest, (j - k) as nat));
            }
            start = end + 1;
        } else {
            assert forall|j: nat| j >= k + 1 implies #[trigger] field(text@, j) is None by {
                assert(field(text@, j) == field(rest, (j - k) as nat));
            }
            more = false;
        }
        k += 1;
    }
    version
}

/// What the device reports of itself.
#[derive(Clone, Copy, Debug, PartialEq, Eq)]
pub struct Status {
    pub version: [u8; 3],
    pub connected: bool,
    pub display_ok: bool,
    pub haptic_ok: bool,
    pub heart_ok: bool,
    pub led_amplitude: u8,
    pub haptic_amplitude: u8,
}

impl Status {
    /// The status of a device with this version text that has nothing
    /// connected and nothing set yet.
    pub fn new(version: &[u8]) -> (s: Self)
        ensures
            forall|k: int| 0 <= k < 3 ==> s.version@[k] == spec_component(version@, k as nat),
            !s.connected && !s.display_ok && !s.haptic_ok && !s.heart_ok,
            s.led_amplitude == 0 && s.haptic_amplitude == 0,
    {
        Status {
            version: parse_version(version),
            connected: false,
            display_ok: false,
            haptic_ok: false,
            heart_ok: false,
            led_amplitude: 0,
            haptic_amplitude: 0,
        }
    }
}

/// How many failures in a row are worth a warning.
pub const MAX_LINK_WARNINGS: u32 = 3;

/// Keeps count of the failures to bring the network link up, so that only
/// the first few in a row are warned about.
#[derive(Clone, Copy, Debug, PartialEq, Eq, Structural)]
pub struct LinkMonitor {
    /// Failures that were warned about since the link last came up.
    pub error_count: u32,
}

impl LinkMonitor {
    /// A monitor that has seen no failure.
    pub fn new() -> (m: Self)
        ensures
            m.error_count == 0,
    {
        LinkMonitor { error_count: 0 }
    }

    /// The link has come up: the status says so, and the count starts over.
    pub fn link_up(&mut self, status: &mut Status)
        ensures
            final(self).error_count == 0,
            *final(status) == (Status { connected: true, ..*old(status) }),
    {
        self.error_count = 0;
        status.connected = true;
    }

    /// The link has failed to come up: the status says so. Returns whether
    /// the failure is worth a warning, which the first three in a row are.
    pub fn link_down(&mut self, status: &mut Status) -> (warn: bool)
        ensures
            warn == (old(self).error_count < MAX_LINK_WARNINGS),
            final(self).error_count == if warn {
                old(self).error_count + 1
            } else {
                old(self).error_count as int
            },
            *final(status) == (Status { connected: false, ..*old(status) }),
    {
        status.connected = false;
        if self.error_count < MAX_LINK_WARNINGS {
            self.error_count = self.error_count + 1;
            true
        } else {
            false
        }
    }
}

} // verus!
