//! The commands exchanged with the device, and their fixed binary encoding.
//!
//! Each enum tag is one byte (its variant index) and each `u32` is a
//! little-endian base-128 varint, so a command takes at most 13 bytes.
use vstd::prelude::*;
use crate::aht20::{celsius_of_raw, milli_celsius, milli_rh, rh_of_raw};

verus! {

/// A raw reading of the AHT20 sensor: 20-bit humidity and temperature counts.
#[derive(Debug, Clone, Copy, PartialEq, Eq, Structural)]
pub struct SensorOk {
    pub h: u32,
    pub t: u32,
}

/// Why the device could not produce a reading.
#[derive(Debug, Clone, Copy, PartialEq, Eq, Structural)]
pub enum SensorErr {
    Uncalibrated,
    Bus,
    CheckSum,
    Uninitialized,
}

/// The last reading of the device's sensor.
#[derive(Debug, Clone, Copy, PartialEq, Eq, Structural)]
pub enum SensorResult {
    Error(SensorErr),
    Reading(SensorOk),
}

/// State of the relay that drives the heater.
#[derive(Debug, Clone, Copy, PartialEq, Eq, Structural)]
pub enum Relay {
    Hot,
    Cold,
}

/// One protocol message.
#[derive(Debug, Clone, Copy, PartialEq, Eq, Structural)]
pub enum Cmd {
    Get,
    Ping,
    Pong,
    SetRelay(Relay),
    Status(Relay, SensorResult),
}

/// Errors of the wire format.
#[derive(Debug, Clone, Copy, PartialEq, Eq, Structural)]
pub enum TError {
    /// The bytes are not the encoding of any command.
    Decode,
    /// An encoded command does not fit in a frame.
    Oversize,
    /// The sensor reported an error.
    Sensor(SensorErr),
}

/// The largest number of bytes a command encodes to.
pub const CMD_MAX_SIZE: usize = 13;

pub open spec fn relay_byte(r: Relay) -> u8 {
    match r {
        Relay::Hot => 0,
        Relay::Cold => 1,
    }
}

pub open spec fn sensor_err_byte(e: SensorErr) -> u8 {
    match e {
        SensorErr::Uncalibrated => 0,
        SensorErr::Bus => 1,
        SensorErr::CheckSum => 2,
        SensorErr::Uninitialized => 3,
    }
}

/// Base-128 varint: seven bits per byte, least significant group first, the
/// high bit set on every byte but the last.
pub open spec fn varint(x: nat) -> Seq<u8>
    decreases x,
{
    if x < 128 {
        seq![x as u8]
    } else {
        seq![(x % 128 + 128) as u8] + varint(x / 128)
    }
}

pub open spec fn sensor_bytes(s: SensorResult) -> Seq<u8> {
    match s {
        SensorResult::Error(e) => seq![0u8, sensor_err_byte(e)],
        SensorResult::Reading(o) => seq![1u8] + varint(o.h as nat) + varint(o.t as nat),
    }
}

/// The encoding of a command.
pub open spec fn cmd_bytes(c: Cmd) -> Seq<u8> {
    match c {
        Cmd::Get => seq![0u8],
        Cmd::Ping => seq![1u8],
        Cmd::Pong => seq![2u8],
        Cmd::SetRelay(r) => seq![3u8, relay_byte(r)],
        Cmd::Status(r, s) => seq![4u8, relay_byte(r)] + sensor_bytes(s),
    }
}

/// Whether some command encodes to exactly these bytes.
pub open spec fn is_cmd_encoding(b: Seq<u8>) -> bool {
    exists|c: Cmd| cmd_bytes(c) == b
}


/// Whether `p` occurs in `s` starting at index `i`.
pub open spec fn occurs_at(p: Seq<u8>, s: Seq<u8>, i: int) -> bool {
    0 <= i && i + p.len() <= s.len() && s.subrange(i, i + p.len()) == p
}

pub open spec fn pow128(k: nat) -> nat
    decreases k,
{
    if k == 0 {
        1
    } else {
        128 * pow128((k - 1) as nat)
    }
}

proof fn lemma_varint_len(x: nat, k: nat)
    requires
        x < pow128(k),
        k >= 1,
    ensures
        1 <= varint(x).len() <= k,
    decreases k,
{
    if x >= 128 {
        assert(k >= 2) by {
            if k == 0 {
            } else if k == 1 {
                assert(pow128(0) == 1);
            }
        }
        let m = pow128((k - 1) as nat);
        assert(x / 128 < m) by (nonlinear_arith)
            requires
                x < 128 * m,
        ;
        lemma_varint_len(x / 128, (k - 1) as nat);
    }
}

/// A `u32` takes between one and five bytes.
pub proof fn lemma_varint_u32_len(x: u32)
    ensures
        1 <= varint(x as nat).len() <= 5,
{
    reveal_with_fuel(pow128, 6);
    assert(pow128(5) == 34359738368);
    lemma_varint_len(x as nat, 5);
}

/// No varint is a proper prefix of another.
proof fn lemma_varint_prefix_free(x: nat, y: nat, s1: Seq<u8>, s2: Seq<u8>)
    requires
        varint(x) + s1 == varint(y) + s2,
    ensures
        x == y,
        s1 == s2,
    decreases x,
{
    let a = varint(x) + s1;
    let b = varint(y) + s2;
    assert(a[0] == varint(x)[0]);
    assert(b[0] == varint(y)[0]);
    if x < 128 {
        if y >= 128 {
            assert(varint(y)[0] >= 128);
        }
        assert(s1 == a.drop_first());
        assert(s2 == b.drop_first());
    } else {
        if y < 128 {
            assert(varint(x)[0] >= 128);
        }
        assert(x % 128 == y % 128);
        assert(varint(x / 128) + s1 == a.drop_first());
        assert(varint(y / 128) + s2 == b.drop_first());
        lemma_varint_prefix_free(x / 128, y / 128, s1, s2);
    }
}

pub proof fn lemma_cmd_bytes_len(c: Cmd)
    ensures
        1 <= cmd_bytes(c).len() <= CMD_MAX_SIZE,
{
    if let Cmd::Status(_, SensorResult::Reading(o)) = c {
        lemma_varint_u32_len(o.h);
        lemma_varint_u32_len(o.t);
    }
}

proof fn lemma_sensor_bytes_injective(s1: SensorResult, s2: SensorResult)
    requires
        sensor_bytes(s1) == sensor_bytes(s2),
    ensures
        s1 == s2,
{
    let b = sensor_bytes(s1);
    assert(b[0] == sensor_bytes(s2)[0]);
    match (s1, s2) {
        (SensorResult::Error(e1), SensorResult::Error(e2)) => {
            assert(b[1] == sensor_bytes(s2)[1]);
            assert(sensor_err_byte(e1) == sensor_err_byte(e2));
        },
        (SensorResult::Reading(o1), SensorResult::Reading(o2)) => {
            let t = b.drop_first();
            assert(t =~= varint(o1.h as nat) + varint(o1.t as nat));
            assert(t =~= varint(o2.h as nat) + varint(o2.t as nat));
            lemma_varint_prefix_free(o1.h as nat, o2.h as nat, varint(o1.t as nat), varint(o2.t as nat));
            let e = Seq::<u8>::empty();
            assert(varint(o1.t as nat) + e =~= varint(o2.t as nat) + e);
            lemma_varint_prefix_free(o1.t as nat, o2.t as nat, e, e);
        },
        _ => {},
    }
}

/// Distinct commands have distinct encodings.
pub proof fn lemma_cmd_bytes_injective(c1: Cmd, c2: Cmd)
    requires
        cmd_bytes(c1) == cmd_bytes(c2),
    ensures
        c1 == c2,
{
    let b = cmd_bytes(c1);
    assert(b[0] == cmd_bytes(c2)[0]);
    match (c1, c2) {
        (Cmd::SetRelay(r1), Cmd::SetRelay(r2)) => {
            assert(b[1] == cmd_bytes(c2)[1]);
            assert(relay_byte(r1) == relay_byte(r2));
        },
        (Cmd::Status(r1, s1), Cmd::Status(r2, s2)) => {
            assert(b[1] == cmd_bytes(c2)[1]);
            assert(relay_byte(r1) == relay_byte(r2));
            assert(sensor_bytes(s1) =~= b.subrange(2, b.len() as int));
            assert(sensor_bytes(s2) =~= b.subrange(2, b.len() as int));
            lemma_sensor_bytes_injective(s1, s2);
        },
        _ => {},
    }
}

fn push_varint(out: &mut Vec<u8>, x: u32)
    ensures
        final(out)@ == old(out)@ + varint(x as nat),
{
    let mut v: u32 = x;
    while v >= 128
        invariant
            old(out)@ + varint(x as nat) == out@ + varint(v as nat),
        decreases v,
    {
        out.push((v % 128 + 128) as u8);
        v = v / 128;
        assert(out@ + varint(v as nat) =~= old(out)@ + varint(x as nat));
    }
    out.push(v as u8);
    assert(out@ =~= old(out)@ + varint(x as nat));
}

/// Reads a varint at `pos`. Every `u32` that is encoded there is read back.
fn read_varint(b: &[u8], pos: usize) -> (r: Option<(u32, usize)>)
    ensures
        r matches Some((_, e)) ==> pos < e <= b@.len(),
        forall|x: u32|
            #[trigger] occurs_at(varint(x as nat), b@, pos as int) ==> r == Some(
                (x, (pos + varint(x as nat).len()) as usize),
            ),
    decreases b@.len() - pos,
{
    if pos >= b.len() {
        return None;
    }
    let byte = b[pos];
    let r = if byte < 128 {
        Some((byte as u32, pos + 1))
    } else {
        match read_varint(b, pos + 1) {
            None => None,
            Some((rest, e)) => match rest.checked_mul(128) {
                None => None,
                Some(m) => match m.checked_add((byte - 128) as u32) {
                    None => None,
                    Some(v) => Some((v, e)),
                },
            },
        }
    };
    assert forall|x: u32| #[trigger] occurs_at(varint(x as nat), b@, pos as int) implies r == Some(
        (x, (pos + varint(x as nat).len()) as usize),
    ) by {
        let p = varint(x as nat);
        assert(b@[pos as int] == b@.subrange(pos as int, pos + p.len())[0]);
        if x < 128 {
        } else {
            let q = varint((x / 128) as nat);
            assert(p.subrange(1, p.len() as int) =~= q);
            assert(b@.subrange(pos + 1, pos + 1 + q.len()) =~= b@.subrange(
                pos as int,
                pos + p.len(),
            ).subrange(1, p.len() as int));
            assert(occurs_at(varint((x / 128) as u32 as nat), b@, pos + 1));
        }
    }
    r
}


fn relay_from_byte(b: u8) -> (r: Option<Relay>)
    ensures
        forall|x: Relay| relay_byte(x) == b ==> r == Some(x),
{
    match b {
        0 => Some(Relay::Hot),
        1 => Some(Relay::Cold),
        _ => None,
    }
}

fn sensor_err_from_byte(b: u8) -> (r: Option<SensorErr>)
    ensures
        forall|x: SensorErr| sensor_err_byte(x) == b ==> r == Some(x),
{
    match b {
        0 => Some(SensorErr::Uncalibrated),
        1 => Some(SensorErr::Bus),
        2 => Some(SensorErr::CheckSum),
        3 => Some(SensorErr::Uninitialized),
        _ => None,
    }
}

/// Where the two varints of an encoded reading stand.
proof fn lemma_reading_layout(c: Cmd, b: Seq<u8>)
    requires
        cmd_bytes(c) == b,
        b.len() >= 4,
        b[0] == 4,
        b[2] == 1,
    ensures
        c matches Cmd::Status(rc, SensorResult::Reading(o)) && relay_byte(rc) == b[1]
            && occurs_at(varint(o.h as nat), b, 3) && occurs_at(
            varint(o.t as nat),
            b,
            3 + varint(o.h as nat).len() as int,
        ),
{
    assert(b[0] == cmd_bytes(c)[0]);
    if let Cmd::Status(rc, sr) = c {
        assert(b[2] == cmd_bytes(c)[2]);
        if let SensorResult::Reading(o) = sr {
            let vh = varint(o.h as nat);
            let vt = varint(o.t as nat);
            let n: int = vh.len() as int;
            let m: int = vt.len() as int;
            assert(b =~= seq![4u8, relay_byte(rc), 1u8] + vh + vt);
            assert(b.subrange(3, 3 + n) =~= vh);
            assert(b.subrange(3 + n, 3 + n + m) =~= vt);
        }
    }
}

/// Reads a command from the start of `b`; every encoding is read back as its
/// command, other bytes may give anything.
fn parse_cmd(b: &[u8]) -> (r: Option<Cmd>)
    ensures
        forall|c: Cmd| cmd_bytes(c) == b@ ==> r == Some(c),
{
    if b.len() < 1 {
        return None;
    }
    if b.len() < 2 {
        return match b[0] {
            0 => Some(Cmd::Get),
            1 => Some(Cmd::Ping),
            2 => Some(Cmd::Pong),
            _ => None,
        };
    }
    let relay = match relay_from_byte(b[1]) {
        Some(r) => r,
        None => return None,
    };
    if b[0] == 3 {
        return Some(Cmd::SetRelay(relay));
    }
    if b[0] != 4 || b.len() < 4 {
        return None;
    }
    if b[2] == 0 {
        return match sensor_err_from_byte(b[3]) {
            Some(e) => Some(Cmd::Status(relay, SensorResult::Error(e))),
            None => None,
        };
    }
    if b[2] != 1 {
        return None;
    }
    let ghost bs = b@;
    let (h, e1) = match read_varint(b, 3) {
        Some(x) => x,
        None => {
            assert forall|c: Cmd| cmd_bytes(c) == bs implies false by {
                lemma_reading_layout(c, bs);
            }
            return None;
        },
    };
    let (t, _e2) = match read_varint(b, e1) {
        Some(x) => x,
        None => {
            assert forall|c: Cmd| cmd_bytes(c) == bs implies false by {
                lemma_reading_layout(c, bs);
            }
            return None;
        },
    };
    let r = Some(Cmd::Status(relay, SensorResult::Reading(SensorOk { h, t })));
    assert forall|c: Cmd| cmd_bytes(c) == bs implies r == Some(c) by {
        lemma_reading_layout(c, bs);
    }
    r
}

/// Whether two byte strings are equal.
pub fn same_bytes(a: &[u8], b: &[u8]) -> (r: bool)
    ensures
        r == (a@ == b@),
{
    if a.len() != b.len() {
        return false;
    }
    let mut i: usize = 0;
    while i < a.len()
        invariant
            a@.len() == b@.len(),
            i <= a@.len(),
            a@.subrange(0, i as int) == b@.subrange(0, i as int),
        decreases a@.len() - i,
    {
        if a[i] != b[i] {
            assert(a@[i as int] != b@[i as int]);
            return false;
        }
        assert(a@.subrange(0, i + 1) =~= a@.subrange(0, i as int).push(a@[i as int]));
        assert(b@.subrange(0, i + 1) =~= b@.subrange(0, i as int).push(b@[i as int]));
        i = i + 1;
    }
    assert(a@ =~= a@.subrange(0, i as int));
    assert(b@ =~= b@.subrange(0, i as int));
    true
}

impl SensorOk {
    /// Relative humidity in thousandths of a percent.
    pub fn rh(&self) -> (r: i64)
        ensures
            r as int == milli_rh(self.h as int),
    {
        rh_of_raw(self.h)
    }

    /// Temperature in thousandths of a degree Celsius.
    pub fn celsius(&self) -> (r: i64)
        ensures
            r as int == milli_celsius(self.t as int),
    {
        celsius_of_raw(self.t)
    }
}

impl Relay {
    /// The relay state for "heating" (`true`) or "not heating" (`false`).
    pub fn from_bool(val: bool) -> (r: Relay)
        ensures
            r == (if val { Relay::Hot } else { Relay::Cold }),
    {
        if val {
            Relay::Hot
        } else {
            Relay::Cold
        }
    }
}

impl From<bool> for Relay {
    /// `Hot` for `true`, `Cold` for `false`.
    fn from(val: bool) -> (r: Relay) {
        Relay::from_bool(val)
    }
}

impl vstd::std_specs::convert::FromSpecImpl<bool> for Relay {
    open spec fn obeys_from_spec() -> bool {
        true
    }

    open spec fn from_spec(val: bool) -> Relay {
        if val {
            Relay::Hot
        } else {
            Relay::Cold
        }
    }
}

impl Cmd {
    /// Appends the encoding of this command to `out`.
    pub fn encode_into(&self, out: &mut Vec<u8>)
        ensures
            final(out)@ == old(out)@ + cmd_bytes(*self),
    {
        match *self {
            Cmd::Get => out.push(0),
            Cmd::Ping => out.push(1),
            Cmd::Pong => out.push(2),
            Cmd::SetRelay(r) => {
                out.push(3);
                out.push(relay_to_byte(r));
            },
            Cmd::Status(r, s) => {
                out.push(4);
                out.push(relay_to_byte(r));
                match s {
                    SensorResult::Error(e) => {
                        out.push(0);
                        out.push(sensor_err_to_byte(e));
                    },
                    SensorResult::Reading(o) => {
                        out.push(1);
                        push_varint(out, o.h);
                        push_varint(out, o.t);
                    },
                }
            },
        }
        assert(out@ =~= old(out)@ + cmd_bytes(*self));
    }

    /// The encoding of this command; it never fails.
    pub fn to_vec(&self) -> (r: Result<Vec<u8>, TError>)
        ensures
            r matches Ok(v) && v@ == cmd_bytes(*self),
    {
        let mut v: Vec<u8> = Vec::new();
        self.encode_into(&mut v);
        assert(v@ =~= cmd_bytes(*self));
        Ok(v)
    }

    /// The command that `value` encodes, if any.
    pub fn from_vec(value: &[u8]) -> (r: Result<Cmd, TError>)
        ensures
            r is Ok <==> is_cmd_encoding(value@),
            r matches Ok(c) ==> cmd_bytes(c) == value@,
            r is Err ==> r == Err::<Cmd, TError>(TError::Decode),
    {
        match parse_cmd(value) {
            Some(c) => {
                let mut enc: Vec<u8> = Vec::new();
                c.encode_into(&mut enc);
                assert(enc@ =~= cmd_bytes(c));
                if same_bytes(enc.as_slice(), value) {
                    Ok(c)
                } else {
                    Err(TError::Decode)
                }
            },
            None => Err(TError::Decode),
        }
    }
}

fn relay_to_byte(r: Relay) -> (b: u8)
    ensures
        b == relay_byte(r),
{
    match r {
        Relay::Hot => 0,
        Relay::Cold => 1,
    }
}

fn sensor_err_to_byte(e: SensorErr) -> (b: u8)
    ensures
        b == sensor_err_byte(e),
{
    match e {
        SensorErr::Uncalibrated => 0,
        SensorErr::Bus => 1,
        SensorErr::CheckSum => 2,
        SensorErr::Uninitialized => 3,
    }
}

} // verus!
