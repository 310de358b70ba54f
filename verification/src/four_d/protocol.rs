use vstd::prelude::*;
use vstd::string::*;
use crate::text::push_char;

verus! {

/// Errors reported while decoding a serial frame.
#[derive(Debug, Clone, Copy, PartialEq, Eq, Structural)]
pub enum ProtocolError {
    InvalidCobs,
    CrcMismatch,
    PacketTooShort,
    UnknownOpcode(u8),
}

/// Lower-case hexadecimal digit character of a value below 16.
pub open spec fn hex_digit_char(d: int) -> char {
    if d < 10 {
        (48 + d) as char
    } else {
        (87 + d) as char
    }
}

/// Human-readable description of a protocol error; an unknown opcode is shown as
/// `0x` followed by two lower-case hexadecimal digits.
pub open spec fn error_message_spec(e: ProtocolError) -> Seq<char> {
    match e {
        ProtocolError::InvalidCobs => "Invalid COBS framing"@,
        ProtocolError::CrcMismatch => "CRC-8 mismatch"@,
        ProtocolError::PacketTooShort => "Packet payload too short"@,
        ProtocolError::UnknownOpcode(code) => "Unknown opcode: 0x"@ + seq![
            hex_digit_char(code as int / 16),
            hex_digit_char(code as int % 16),
        ],
    }
}

fn hex_digit(d: u8) -> (c: char)
    requires
        d < 16,
    ensures
        c == hex_digit_char(d as int),
{
    if d < 10 {
        (48 + d) as char
    } else {
        (87 + d) as char
    }
}

impl ProtocolError {
    /// The error's description, as a user sees it.
    pub fn message(&self) -> (m: String)
        ensures
            m@ == error_message_spec(*self),
    {
        match self {
            ProtocolError::InvalidCobs => String::from_str("Invalid COBS framing"),
            ProtocolError::CrcMismatch => String::from_str("CRC-8 mismatch"),
            ProtocolError::PacketTooShort => String::from_str("Packet payload too short"),
            ProtocolError::UnknownOpcode(code) => {
                let mut m = String::from_str("Unknown opcode: 0x");
                push_char(&mut m, hex_digit(*code / 16));
                push_char(&mut m, hex_digit(*code % 16));
                m
            },
        }
    }
}

/// One step of the reflected Dallas/Maxim CRC-8 shift register.
pub open spec fn crc_shift(crc: u8) -> u8 {
    if crc & 1u8 != 0u8 {
        ((crc >> 1u8) ^ 0x8Cu8) as u8
    } else {
        (crc >> 1u8) as u8
    }
}

/// `n` successive register shifts.
pub open spec fn crc_shifts(crc: u8, n: nat) -> u8
    decreases n,
{
    if n == 0 {
        crc
    } else {
        crc_shifts(crc_shift(crc), (n - 1) as nat)
    }
}

/// CRC-8 (polynomial 0x31 reflected as 0x8C, initial value 0) of a byte sequence.
pub open spec fn crc8_spec(data: Seq<u8>) -> u8
    decreases data.len(),
{
    if data.len() == 0 {
        0u8
    } else {
        crc_shifts(crc8_spec(data.drop_last()) ^ data.last(), 8)
    }
}

/// Calculates CRC-8 checksum using the standard Dallas/Maxim 1-Wire polynomial
/// (0x31 reflected as 0x8C, initial value 0x00).
pub fn crc8(data: &[u8]) -> (crc: u8)
    ensures
        crc == crc8_spec(data@),
{
    let mut crc: u8 = 0x00;
    let mut i: usize = 0;
    while i < data.len()
        invariant
            i <= data.len(),
            crc == crc8_spec(data@.take(i as int)),
        decreases data.len() - i,
    {
        let ghost before = crc ^ data@[i as int];
        crc = crc ^ data[i];
        let mut bit: usize = 0;
        while bit < 8
            invariant
                bit <= 8,
                crc == crc_shifts(before, bit as nat),
            decreases 8 - bit,
        {
            proof {
                lemma_crc_shifts_step(before, bit as nat);
            }
            if (crc & 0x01) != 0 {
                crc = (crc >> 1) ^ 0x8C;
            } else {
                crc = crc >> 1;
            }
            bit = bit + 1;
        }
        assert(data@.take((i + 1) as int).drop_last() =~= data@.take(i as int));
        i = i + 1;
    }
    assert(data@.take(data.len() as int) =~= data@);
    crc
}

proof fn lemma_crc_shifts_step(crc: u8, n: nat)
    ensures
        crc_shifts(crc, n + 1) == crc_shift(crc_shifts(crc, n)),
    decreases n,
{
    if n > 0 {
        lemma_crc_shifts_step(crc_shift(crc), (n - 1) as nat);
        assert(crc_shifts(crc, n) == crc_shifts(crc_shift(crc), (n - 1) as nat));
    } else {
        assert(crc_shifts(crc_shift(crc), 0) == crc_shift(crc));
    }
}

proof fn lemma_crc_shifts_zero(n: nat)
    ensures
        crc_shifts(0u8, n) == 0u8,
    decreases n,
{
    assert(crc_shift(0u8) == 0u8) by (bit_vector);
    if n > 0 {
        lemma_crc_shifts_zero((n - 1) as nat);
    }
}

/// Appending a block's own CRC-8 to it leaves a zero remainder: the CRC of the block
/// followed by its checksum byte is 0.
pub proof fn lemma_crc8_residue(data: Seq<u8>)
    ensures
        crc8_spec(data.push(crc8_spec(data))) == 0u8,
{
    let c = crc8_spec(data);
    assert(data.push(c).drop_last() =~= data);
    assert(c ^ c == 0u8) by (bit_vector);
    lemma_crc_shifts_zero(8);
}

/// Number of leading non-zero bytes of `s`, counting at most `cap` of them.
pub open spec fn nonzero_run(s: Seq<u8>, cap: nat) -> nat
    decreases s.len(),
{
    if cap == 0 || s.len() == 0 || s[0] == 0 {
        0
    } else {
        1 + nonzero_run(s.drop_first(), (cap - 1) as nat)
    }
}

pub proof fn lemma_nonzero_run_bounds(s: Seq<u8>, cap: nat)
    ensures
        nonzero_run(s, cap) <= s.len(),
        nonzero_run(s, cap) <= cap,
        forall|k: int| 0 <= k < nonzero_run(s, cap) ==> s[k] != 0,
        nonzero_run(s, cap) < cap && nonzero_run(s, cap) < s.len() ==> s[nonzero_run(s, cap) as int] == 0,
    decreases s.len(),
{
    if cap == 0 || s.len() == 0 || s[0] == 0 {
    } else {
        lemma_nonzero_run_bounds(s.drop_first(), (cap - 1) as nat);
        assert forall|k: int| 0 <= k < nonzero_run(s, cap) implies s[k] != 0 by {
            if k > 0 {
                assert(s[k] == s.drop_first()[k - 1]);
            }
        }
    }
}

/// A run of `n` non-zero bytes that is ended by the cap, the end of input or a zero byte
/// has exactly length `n`.
pub proof fn lemma_nonzero_run_exact(s: Seq<u8>, cap: nat, n: nat)
    requires
        n <= s.len(),
        n <= cap,
        forall|k: int| 0 <= k < n ==> s[k] != 0,
        n == cap || n == s.len() || s[n as int] == 0,
    ensures
        nonzero_run(s, cap) == n,
    decreases n,
{
    if n > 0 {
        assert forall|k: int| 0 <= k < (n - 1) as nat implies s.drop_first()[k] != 0 by {
            assert(s.drop_first()[k] == s[k + 1]);
        }
        if n < s.len() {
            assert(s.drop_first()[(n - 1) as int] == s[n as int]);
        }
        lemma_nonzero_run_exact(s.drop_first(), (cap - 1) as nat, (n - 1) as nat);
    }
}

/// COBS encoding: the input is cut into blocks that end at a zero byte (which is dropped),
/// after 254 non-zero bytes, or at the end of input; each block is written as its length
/// code (number of data bytes + 1, or 0xFF for a full block) followed by its data bytes.
pub open spec fn cobs_encode_spec(s: Seq<u8>) -> Seq<u8>
    decreases s.len(),
{
    let r = nonzero_run(s, 254);
    proof {
        lemma_nonzero_run_bounds(s, 254);
    }
    if r == 254 {
        seq![0xFFu8] + s.take(254) + cobs_encode_spec(s.skip(254))
    } else if r == s.len() {
        seq![(r + 1) as u8] + s
    } else {
        seq![(r + 1) as u8] + s.take(r as int) + cobs_encode_spec(s.skip(r + 1 as int))
    }
}

/// Prepends `p` to a successful decoding result.
pub open spec fn prepend_ok(p: Seq<u8>, o: Option<Seq<u8>>) -> Option<Seq<u8>> {
    match o {
        Some(t) => Some(p + t),
        None => None,
    }
}

/// COBS decoding: `None` when a block code is zero, a block runs past the end of input,
/// or a data byte is zero. A block whose code is below 0xFF and that is followed by
/// more input stands for its data bytes and a zero byte.
pub open spec fn cobs_decode_spec(e: Seq<u8>) -> Option<Seq<u8>>
    decreases e.len(),
{
    if e.len() == 0 {
        Some(Seq::empty())
    } else {
        let c = e[0] as int;
        if c == 0 || e.len() < c {
            None
        } else if e.subrange(1, c).contains(0u8) {
            None
        } else {
            let rest = e.skip(c);
            if c < 0xFF && rest.len() > 0 {
                prepend_ok(e.subrange(1, c) + seq![0u8], cobs_decode_spec(rest))
            } else {
                prepend_ok(e.subrange(1, c), cobs_decode_spec(rest))
            }
        }
    }
}

/// Encodes a byte buffer using Consistent Overhead Byte Stuffing (COBS).
/// The resulting buffer is guaranteed to contain no `0x00` bytes.
pub fn cobs_encode(input: &[u8]) -> (out: Vec<u8>)
    ensures
        out@ == cobs_encode_spec(input@),
{
    let mut output: Vec<u8> = Vec::new();
    let mut code_idx: usize = 0;
    output.push(1);
    let mut code: u8 = 1;
    let ghost mut start: int = 0;
    let mut i: usize = 0;
    assert(input@.skip(0) =~= input@);
    assert(output@.take(0) + cobs_encode_spec(input@) =~= cobs_encode_spec(input@));
    while i < input.len()
        invariant
            0 <= start <= i <= input.len(),
            code_idx < output.len(),
            code as int == i - start + 1,
            code < 0xFF,
            output@.len() == code_idx + 1 + (i - start),
            output@.subrange(code_idx + 1, output@.len() as int) == input@.subrange(start, i as int),
            forall|k: int| start <= k < i ==> input@[k] != 0,
            cobs_encode_spec(input@) == output@.take(code_idx as int) + cobs_encode_spec(
                input@.skip(start),
            ),
        decreases input.len() - i,
    {
        let b = input[i];
        let ghost t = input@.skip(start);
        let ghost n = (i - start) as nat;
        if b == 0 {
            proof {
                assert forall|k: int| 0 <= k < n implies t[k] != 0 by {
                    assert(t[k] == input@[start + k]);
                }
                assert(t[n as int] == input@[i as int]);
                lemma_nonzero_run_exact(t, 254, n);
                assert(t.take(n as int) =~= input@.subrange(start, i as int));
                assert(t.skip(n + 1 as int) =~= input@.skip(i + 1));
            }
            let ghost before = output@;
            output.set(code_idx, code);
            assert(output@ =~= before.take(code_idx as int) + seq![code] + input@.subrange(
                start,
                i as int,
            ));
            code_idx = output.len();
            output.push(1);
            code = 1;
            proof {
                start = i + 1;
            }
            assert(output@.take(code_idx as int) =~= before.take(code_idx as int - n - 1)
                + seq![(n + 1) as u8] + t.take(n as int));
        } else {
            let ghost before = output@;
            output.push(b);
            code = code + 1;
            assert(output@.subrange(code_idx + 1, output@.len() as int) =~= input@.subrange(
                start,
                i + 1,
            ));
            if code == 0xFF {
                proof {
                    assert forall|k: int| 0 <= k < 254 implies t[k] != 0 by {
                        assert(t[k] == input@[start + k]);
                    }
                    lemma_nonzero_run_exact(t, 254, 254);
                    assert(t.take(254) =~= input@.subrange(start, i + 1));
                    assert(t.skip(254) =~= input@.skip(i + 1));
                }
                let ghost mid = output@;
                output.set(code_idx, code);
                assert(output@ =~= mid.take(code_idx as int) + seq![0xFFu8] + input@.subrange(
                    start,
                    i + 1,
                ));
                code_idx = output.len();
                output.push(1);
                code = 1;
                proof {
                    start = i + 1;
                }
                assert(output@.take(code_idx as int) =~= mid.take(code_idx as int - 255)
                    + seq![0xFFu8] + t.take(254));
            }
        }
        i = i + 1;
    }
    proof {
        let t = input@.skip(start);
        let n = (i - start) as nat;
        assert forall|k: int| 0 <= k < n implies t[k] != 0 by {
            assert(t[k] == input@[start + k]);
        }
        lemma_nonzero_run_exact(t, 254, n);
        assert(t =~= input@.subrange(start, i as int));
    }
    let ghost before = output@;
    output.set(code_idx, code);
    assert(output@ =~= before.take(code_idx as int) + seq![code] + input@.subrange(
        start,
        i as int,
    ));
    output
}


/// Decodes a COBS-encoded byte buffer.
/// Returns `Err(ProtocolError::InvalidCobs)` if input contains `0x00` or malformed block offsets.
pub fn cobs_decode(input: &[u8]) -> (res: Result<Vec<u8>, ProtocolError>)
    ensures
        match res {
            Ok(v) => cobs_decode_spec(input@) == Some(v@),
            Err(e) => cobs_decode_spec(input@) is None && e == ProtocolError::InvalidCobs,
        },
{
    if input.len() == 0 {
        return Ok(Vec::new());
    }
    let mut output: Vec<u8> = Vec::new();
    let mut idx: usize = 0;
    assert(input@.skip(0) =~= input@);
    assert(output@ + Seq::<u8>::empty() =~= Seq::<u8>::empty());
    while idx < input.len()
        invariant
            idx <= input.len(),
            cobs_decode_spec(input@) == prepend_ok(output@, cobs_decode_spec(input@.skip(idx as int))),
        decreases input.len() - idx,
    {
        let code = input[idx] as usize;
        let ghost t = input@.skip(idx as int);
        let ghost block_start = idx as int;
        let ghost out0 = output@;
        assert(t[0] == input@[idx as int]);
        if code == 0 {
            return Err(ProtocolError::InvalidCobs);
        }
        idx = idx + 1;
        let mut k: usize = 1;
        while k < code
            invariant
                1 <= k <= code,
                code == t[0] as int,
                code <= 0xFF,
                t == input@.skip(block_start),
                0 <= block_start < input.len(),
                idx == block_start + k,
                idx <= input.len(),
                output@ == out0 + input@.subrange(block_start + 1, idx as int),
                forall|j: int| block_start + 1 <= j < idx ==> input@[j] != 0,
                cobs_decode_spec(input@) == prepend_ok(out0, cobs_decode_spec(t)),
            decreases code - k,
        {
            if idx >= input.len() {
                assert(t.len() < code);
                return Err(ProtocolError::InvalidCobs);
            }
            if input[idx] == 0 {
                proof {
                    if t.len() >= code {
                        assert(t.subrange(1, code as int)[k as int - 1] == input@[idx as int]);
                        assert(t.subrange(1, code as int).contains(0u8));
                    }
                }
                return Err(ProtocolError::InvalidCobs);
            }
            output.push(input[idx]);
            idx = idx + 1;
            k = k + 1;
            assert(output@ =~= out0 + input@.subrange(block_start + 1, idx as int));
        }
        proof {
            let data = t.subrange(1, code as int);
            assert(data =~= input@.subrange(block_start + 1, idx as int));
            assert(!data.contains(0u8)) by {
                if data.contains(0u8) {
                    let j = choose|j: int| 0 <= j < data.len() && data[j] == 0u8;
                    assert(data[j] == input@[block_start + 1 + j]);
                }
            }
            assert(t.skip(code as int) =~= input@.skip(idx as int));
        }
        if code < 0xFF && idx < input.len() {
            output.push(0);
        }
        assert(output@ =~= out0 + t.subrange(1, code as int) + (if code < 0xFF && idx
            < input.len() {
            seq![0u8]
        } else {
            Seq::<u8>::empty()
        }));
    }
    assert(input@.skip(idx as int) =~= Seq::<u8>::empty());
    assert(output@ + Seq::<u8>::empty() =~= output@);
    Ok(output)
}

/// The COBS encoding of any byte sequence is never empty and holds no zero byte.
pub proof fn lemma_cobs_encode_zero_free(s: Seq<u8>)
    ensures
        cobs_encode_spec(s).len() > 0,
        !cobs_encode_spec(s).contains(0u8),
    decreases s.len(),
{
    lemma_nonzero_run_bounds(s, 254);
    let r = nonzero_run(s, 254) as int;
    let e = cobs_encode_spec(s);
    if r == 254 {
        lemma_cobs_encode_zero_free(s.skip(254));
        let tail = cobs_encode_spec(s.skip(254));
        assert(!e.contains(0u8)) by {
            if e.contains(0u8) {
                let j = choose|j: int| 0 <= j < e.len() && e[j] == 0u8;
                if j >= 255 {
                    assert(e[j] == tail[j - 255]);
                } else if j >= 1 {
                    assert(e[j] == s[j - 1]);
                }
            }
        }
    } else if r == s.len() {
        assert(!e.contains(0u8)) by {
            if e.contains(0u8) {
                let j = choose|j: int| 0 <= j < e.len() && e[j] == 0u8;
                if j >= 1 {
                    assert(e[j] == s[j - 1]);
                }
            }
        }
    } else {
        lemma_cobs_encode_zero_free(s.skip(r + 1));
        let tail = cobs_encode_spec(s.skip(r + 1));
        assert(!e.contains(0u8)) by {
            if e.contains(0u8) {
                let j = choose|j: int| 0 <= j < e.len() && e[j] == 0u8;
                if j >= r + 1 {
                    assert(e[j] == tail[j - r - 1]);
                } else if j >= 1 {
                    assert(e[j] == s[j - 1]);
                }
            }
        }
    }
}

/// Decoding the COBS encoding of any byte sequence gives that sequence back.
pub proof fn lemma_cobs_roundtrip(s: Seq<u8>)
    ensures
        cobs_decode_spec(cobs_encode_spec(s)) == Some(s),
    decreases s.len(),
{
    lemma_nonzero_run_bounds(s, 254);
    let r = nonzero_run(s, 254) as int;
    let e = cobs_encode_spec(s);
    if r == 254 {
        let rest = s.skip(254);
        lemma_cobs_roundtrip(rest);
        lemma_cobs_encode_zero_free(rest);
        assert(e.subrange(1, 255) =~= s.take(254));
        assert(e.skip(255) =~= cobs_encode_spec(rest));
        assert(!s.take(254).contains(0u8)) by {
            if s.take(254).contains(0u8) {
                let j = choose|j: int| 0 <= j < 254 && s.take(254)[j] == 0u8;
            }
        }
        assert(s.take(254) + rest =~= s);
        assert(e[0] == 0xFFu8);
        assert(cobs_decode_spec(e) == prepend_ok(e.subrange(1, 255), cobs_decode_spec(e.skip(255))));
    } else if r == s.len() {
        assert(e.subrange(1, r + 1) =~= s);
        assert(e.skip(r + 1) =~= Seq::<u8>::empty());
        assert(!s.contains(0u8)) by {
            if s.contains(0u8) {
                let j = choose|j: int| 0 <= j < s.len() && s[j] == 0u8;
            }
        }
        assert(s + Seq::<u8>::empty() =~= s);
        assert(e[0] == (r + 1) as u8);
        assert(e.len() == r + 1);
        assert(cobs_decode_spec(e.skip(r + 1)) == Some(Seq::<u8>::empty()));
        assert(cobs_decode_spec(e) == prepend_ok(e.subrange(1, r + 1), cobs_decode_spec(e.skip(r + 1))));
    } else {
        let rest = s.skip(r + 1);
        lemma_cobs_roundtrip(rest);
        lemma_cobs_encode_zero_free(rest);
        assert(e.subrange(1, r + 1) =~= s.take(r as int));
        assert(e.skip(r + 1) =~= cobs_encode_spec(rest));
        assert(!s.take(r as int).contains(0u8)) by {
            if s.take(r as int).contains(0u8) {
                let j = choose|j: int| 0 <= j < r && s.take(r as int)[j] == 0u8;
            }
        }
        assert(s.take(r as int) + seq![0u8] + rest =~= s);
        assert(e[0] == (r + 1) as u8);
        assert(e.skip(r + 1).len() > 0);
        assert(cobs_decode_spec(e) == prepend_ok(e.subrange(1, r + 1) + seq![0u8], cobs_decode_spec(e.skip(r + 1))));
    }
}


/// Typed 4D cinema hardware commands.
#[derive(Debug, Clone, Copy, PartialEq, Eq, Structural)]
pub enum Command {
    Ping,
    RelaySet { id: u8, state: bool },
    PwmSet { channel: u8, value: u8 },
    AllOff,
}

/// The payload bytes of a command: opcode followed by its arguments.
pub open spec fn payload_spec(c: Command) -> Seq<u8> {
    match c {
        Command::Ping => seq![0x01u8],
        Command::RelaySet { id, state } => seq![0x02u8, id, if state { 1u8 } else { 0u8 }],
        Command::PwmSet { channel, value } => seq![0x03u8, channel, value],
        Command::AllOff => seq![0x04u8],
    }
}

/// The wire frame of a command: COBS of payload followed by its CRC-8, then the `0x00` delimiter.
pub open spec fn frame_spec(c: Command) -> Seq<u8> {
    cobs_encode_spec(payload_spec(c).push(crc8_spec(payload_spec(c)))).push(0u8)
}

/// The frame without one trailing `0x00` delimiter, if it has one.
pub open spec fn strip_delimiter(frame: Seq<u8>) -> Seq<u8> {
    if frame.len() > 0 && frame.last() == 0u8 {
        frame.drop_last()
    } else {
        frame
    }
}

/// Interprets a checked payload (opcode and arguments).
pub open spec fn command_of_payload(payload: Seq<u8>) -> Result<Command, ProtocolError> {
    let op = payload[0];
    if op == 0x01u8 {
        Ok(Command::Ping)
    } else if op == 0x02u8 {
        if payload.len() < 3 {
            Err(ProtocolError::PacketTooShort)
        } else {
            Ok(Command::RelaySet { id: payload[1], state: payload[2] != 0u8 })
        }
    } else if op == 0x03u8 {
        if payload.len() < 3 {
            Err(ProtocolError::PacketTooShort)
        } else {
            Ok(Command::PwmSet { channel: payload[1], value: payload[2] })
        }
    } else if op == 0x04u8 {
        Ok(Command::AllOff)
    } else {
        Err(ProtocolError::UnknownOpcode(op))
    }
}

/// Result of parsing one frame, with or without its trailing delimiter.
pub open spec fn parse_frame_spec(frame: Seq<u8>) -> Result<Command, ProtocolError> {
    match cobs_decode_spec(strip_delimiter(frame)) {
        None => Err(ProtocolError::InvalidCobs),
        Some(d) => if d.len() < 2 {
            Err(ProtocolError::PacketTooShort)
        } else if d.last() != crc8_spec(d.drop_last()) {
            Err(ProtocolError::CrcMismatch)
        } else {
            command_of_payload(d.drop_last())
        },
    }
}

impl Command {
    /// Opcode and argument bytes of this command.
    pub fn to_payload(&self) -> (p: Vec<u8>)
        ensures
            p@ == payload_spec(*self),
    {
        let mut p: Vec<u8> = Vec::new();
        match *self {
            Command::Ping => {
                p.push(0x01);
            },
            Command::RelaySet { id, state } => {
                p.push(0x02);
                p.push(id);
                p.push(if state { 1 } else { 0 });
            },
            Command::PwmSet { channel, value } => {
                p.push(0x03);
                p.push(channel);
                p.push(value);
            },
            Command::AllOff => {
                p.push(0x04);
            },
        }
        assert(p@ =~= payload_spec(*self));
        p
    }

    /// Complete wire frame: COBS-encoded payload and CRC-8, terminated by `0x00`.
    pub fn to_frame(&self) -> (f: Vec<u8>)
        ensures
            f@ == frame_spec(*self),
    {
        let mut payload = self.to_payload();
        let checksum = crc8(payload.as_slice());
        payload.push(checksum);
        let mut framed = cobs_encode(payload.as_slice());
        framed.push(0x00);
        framed
    }
}

/// Parses one frame (COBS body, optionally followed by its `0x00` delimiter) into a command.
pub fn parse_frame(frame: &[u8]) -> (res: Result<Command, ProtocolError>)
    ensures
        res == parse_frame_spec(frame@),
{
    let n = frame.len();
    let body: &[u8] = if n > 0 && frame[n - 1] == 0 {
        let (b, _) = frame.split_at(n - 1);
        assert(b@ =~= frame@.drop_last());
        b
    } else {
        frame
    };
    let decoded = match cobs_decode(body) {
        Ok(d) => d,
        Err(e) => {
            return Err(e);
        },
    };
    if decoded.len() < 2 {
        return Err(ProtocolError::PacketTooShort);
    }
    let (payload, crc_slice) = decoded.as_slice().split_at(decoded.len() - 1);
    assert(payload@ =~= decoded@.drop_last());
    let expected_crc = crc8(payload);
    if crc_slice[0] != expected_crc {
        return Err(ProtocolError::CrcMismatch);
    }
    match payload[0] {
        0x01 => Ok(Command::Ping),
        0x02 => {
            if payload.len() < 3 {
                return Err(ProtocolError::PacketTooShort);
            }
            Ok(Command::RelaySet { id: payload[1], state: payload[2] != 0 })
        },
        0x03 => {
            if payload.len() < 3 {
                return Err(ProtocolError::PacketTooShort);
            }
            Ok(Command::PwmSet { channel: payload[1], value: payload[2] })
        },
        0x04 => Ok(Command::AllOff),
        other => Err(ProtocolError::UnknownOpcode(other)),
    }
}

/// Every frame ends with its delimiter, holds no other zero byte, and parses back to
/// the command it was built from, with or without the delimiter.
pub proof fn lemma_frame_roundtrip(c: Command)
    ensures
        frame_spec(c).last() == 0u8,
        forall|k: int| 0 <= k < frame_spec(c).len() - 1 ==> frame_spec(c)[k] != 0u8,
        parse_frame_spec(frame_spec(c)) == Ok::<Command, ProtocolError>(c),
        parse_frame_spec(frame_spec(c).drop_last()) == Ok::<Command, ProtocolError>(c),
{
    let p = payload_spec(c);
    let d = p.push(crc8_spec(p));
    let e = cobs_encode_spec(d);
    lemma_cobs_roundtrip(d);
    lemma_cobs_encode_zero_free(d);
    let f = frame_spec(c);
    assert(f.drop_last() =~= e);
    assert forall|k: int| 0 <= k < f.len() - 1 implies f[k] != 0u8 by {
        assert(f[k] == e[k]);
        if e[k] == 0u8 {
            assert(e.contains(0u8));
        }
    }
    assert(e.last() != 0u8) by {
        assert(e.contains(e.last()));
    }
    assert(strip_delimiter(f) == e);
    assert(strip_delimiter(e) == e);
    assert(d.drop_last() =~= p);
    match c {
        Command::Ping => {},
        Command::RelaySet { id, state } => {},
        Command::PwmSet { channel, value } => {},
        Command::AllOff => {},
    }
}

/// A frame whose checksum byte is not the CRC-8 of its payload is always refused with
/// `CrcMismatch`, with or without its delimiter, whatever the payload holds.
pub proof fn lemma_bad_checksum_rejected(payload: Seq<u8>, checksum: u8)
    requires
        payload.len() >= 1,
        checksum != crc8_spec(payload),
    ensures
        parse_frame_spec(cobs_encode_spec(payload.push(checksum)).push(0u8)) == Err::<Command, ProtocolError>(
            ProtocolError::CrcMismatch,
        ),
        parse_frame_spec(cobs_encode_spec(payload.push(checksum))) == Err::<Command, ProtocolError>(
            ProtocolError::CrcMismatch,
        ),
{
    let d = payload.push(checksum);
    let e = cobs_encode_spec(d);
    lemma_cobs_roundtrip(d);
    lemma_cobs_encode_zero_free(d);
    let f = e.push(0u8);
    assert(f.drop_last() =~= e);
    assert(e.last() != 0u8) by {
        assert(e.contains(e.last()));
    }
    assert(strip_delimiter(f) == e);
    assert(strip_delimiter(e) == e);
    assert(d.drop_last() =~= payload);
}

} // verus!
