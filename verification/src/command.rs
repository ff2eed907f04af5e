//! Commands of the control channel.
//!
//! A command arrives as a few bytes in a buffer of ten: an opcode and its
//! argument. This module says which command a buffer holds, and turns the
//! argument of an update command, a release tag, into the address of the
//! firmware image.

use vstd::prelude::*;
use vstd::string::*;

verus! {

/// Size of the buffer that commands are read into.
pub const COMMAND_BUFFER_LEN: usize = 10;

/// Opcode: restart the device.
pub const OP_RESTART: u8 = 0;

/// Opcode: update the firmware; the release tag follows.
pub const OP_UPDATE: u8 = 1;

/// Opcode: set the amplitude of the sensor's LED; one byte follows.
pub const OP_LED_AMPLITUDE: u8 = 2;

/// Opcode: send telemetry to a port of the peer; two bytes follow, high
/// byte first.
pub const OP_UDP_PORT: u8 = 3;

/// Opcode: set the amplitude of the haptic motor; one byte follows.
pub const OP_HAPTIC_AMPLITUDE: u8 = 4;

/// Address of a firmware image, with `TAG` where the release tag goes.
pub const UPDATE_BIN_URL: &'static str =
    "https://github.com/krokosik/esp-pulser/releases/download/vTAG/esp-pulser";

/// What comes before the tag in the address of a firmware image.
pub const UPDATE_URL_HEAD: &'static str =
    "https://github.com/krokosik/esp-pulser/releases/download/v";

/// What comes after the tag in the address of a firmware image.
pub const UPDATE_URL_TAIL: &'static str = "/esp-pulser";

/// A command of the control channel.
#[derive(Clone, Debug, PartialEq, Eq)]
pub enum Command {
    /// Restart the device.
    Restart,
    /// Update the firmware to the release with this tag, then restart.
    Update { tag: Vec<u8> },
    /// Set the amplitude of the sensor's LED.
    SetLedAmplitude(u8),
    /// Send telemetry to this port of the peer.
    ConnectUdp { port: u16 },
    /// Set the amplitude of the haptic motor.
    SetHapticAmplitude(u8),
    /// An opcode that stands for nothing.
    Unknown(u8),
}

/// Why an update command names no firmware image.
#[derive(Clone, Copy, Debug, PartialEq, Eq, Structural)]
pub enum UpdateError {
    /// The address made from the tag is no address.
    InvalidUrl,
}

/// The port that two bytes stand for, high byte first.
pub open spec fn spec_port(high: u8, low: u8) -> u16 {
    (high as int * 256 + low as int) as u16
}

/// The bytes of a received command that follow the opcode: those up to
/// `n`, or up to the end of the buffer if `n` is beyond it.
pub open spec fn spec_argument(buf: Seq<u8>, n: int) -> Seq<u8> {
    if n <= buf.len() {
        buf.subrange(1, n)
    } else {
        buf.subrange(1, buf.len() as int)
    }
}

/// Whether `c` is the command that a buffer holds of which the first `n`
/// bytes were received. The arguments of one and two bytes are read from the
/// buffer whether or not that many bytes were received.
pub open spec fn is_decoded(buf: Seq<u8>, n: int, c: Command) -> bool {
    if buf[0] == OP_RESTART {
        c == Command::Restart
    } else if buf[0] == OP_UPDATE {
        c matches Command::Update { tag } && tag@ == spec_argument(buf, n)
    } else if buf[0] == OP_LED_AMPLITUDE {
        c == Command::SetLedAmplitude(buf[1])
    } else if buf[0] == OP_UDP_PORT {
        c == (Command::ConnectUdp { port: spec_port(buf[1], buf[2]) })
    } else if buf[0] == OP_HAPTIC_AMPLITUDE {
        c == Command::SetHapticAmplitude(buf[1])
    } else {
        c == Command::Unknown(buf[0])
    }
}

/// Reads the command out of a buffer of which the first `n` bytes were
/// received. There is none if nothing was received, which is how the peer
/// closes the channel.
pub fn decode(buf: &[u8; 10], n: usize) -> (r: Option<Command>)
    ensures
        r is Some <==> n > 0,
        r matches Some(c) ==> is_decoded(buf@, n as int, c),
{
    if n == 0 {
        return None;
    }
    let op = buf[0];
    if op == OP_RESTART {
        Some(Command::Restart)
    } else if op == OP_UPDATE {
        let end = if n <= COMMAND_BUFFER_LEN {
            n
        } else {
            COMMAND_BUFFER_LEN
        };
        let mut tag: Vec<u8> = Vec::new();
        let mut k: usize = 1;
        while k < end
            invariant
                1 <= k <= end <= 10,
                tag@ == buf@.subrange(1, k as int),
            decreases end - k,
        {
            tag.push(buf[k]);
            assert(buf@.subrange(1, k + 1) =~= buf@.subrange(1, k as int).push(buf@[k as int]));
            k += 1;
        }
        Some(Command::Update { tag })
    } else if op == OP_LED_AMPLITUDE {
        Some(Command::SetLedAmplitude(buf[1]))
    } else if op == OP_UDP_PORT {
        let high = buf[1];
        let low = buf[2];
        Some(Command::ConnectUdp { port: high as u16 * 256 + low as u16 })
    } else if op == OP_HAPTIC_AMPLITUDE {
        Some(Command::SetHapticAmplitude(buf[1]))
    } else {
        Some(Command::Unknown(op))
    }
}

/// The address of the firmware image of the release with this tag.
pub open spec fn spec_update_url(tag: Seq<char>) -> Seq<char> {
    UPDATE_URL_HEAD@ + tag + UPDATE_URL_TAIL@
}

/// The address of the firmware image of the release with this tag.
pub fn update_url(tag: &str) -> (url: String)
    ensures
        url@ == spec_update_url(tag@),
{
    let mut url = String::from_str(UPDATE_URL_HEAD);
    url.append(tag);
    url.append(UPDATE_URL_TAIL);
    url
}

/// The address with `TAG` for the tag is the address pattern.
pub proof fn lemma_url_pattern()
    ensures
        spec_update_url("TAG"@) == UPDATE_BIN_URL@,
{
    reveal_strlit("https://github.com/krokosik/esp-pulser/releases/download/vTAG/esp-pulser");
    reveal_strlit("https://github.com/krokosik/esp-pulser/releases/download/v");
    reveal_strlit("/esp-pulser");
    reveal_strlit("TAG");
    assert(spec_update_url("TAG"@) =~= UPDATE_BIN_URL@);
}

#[verifier::external_type_specification]
#[verifier::external_body]
pub struct ExUri(http::Uri);

#[verifier::external_type_specification]
#[verifier::external_body]
pub struct ExInvalidUri(http::uri::InvalidUri);

/// Whether `http` takes a text for an address: whether `http::Uri::try_from`
/// returns `Ok` for a string with this text.
pub uninterp spec fn uri_accepts(text: Seq<char>) -> bool;

/// Calls `http::Uri::try_from` on an owned string. The parser reads nothing
/// but the bytes of the string, so whether it returns `Ok` is a matter of the
/// text alone. Of the address that it returns nothing is claimed.
#[verifier::external_body]
fn parse_uri(text: String) -> (r: Result<http::Uri, http::uri::InvalidUri>)
    ensures
        r is Ok <==> uri_accepts(text@),
{
    http::Uri::try_from(text)
}

/// What an update command leads to, given what parsing its address gave: the
/// parsed address, or the reason why there is none.
pub fn update_outcome(parsed: Result<http::Uri, http::uri::InvalidUri>) -> (r: Result<
    http::Uri,
    UpdateError,
>)
    ensures
        parsed matches Ok(uri) ==> r == Ok::<http::Uri, UpdateError>(uri),
        parsed is Err ==> r == Err::<http::Uri, UpdateError>(UpdateError::InvalidUrl),
{
    match parsed {
        Ok(uri) => Ok(uri),
        Err(_) => Err(UpdateError::InvalidUrl),
    }
}

/// The firmware image that an update command with this tag asks for: the
/// address made from the tag, if `http` takes it for one.
pub fn update_target(tag: &str) -> (r: Result<http::Uri, UpdateError>)
    ensures
        uri_accepts(spec_update_url(tag@)) ==> r is Ok,
        !uri_accepts(spec_update_url(tag@)) ==> r == Err::<http::Uri, UpdateError>(
            UpdateError::InvalidUrl,
        ),
{
    update_outcome(parse_uri(update_url(tag)))
}

} // verus!
