//! Driver for the AHT20 humidity and temperature sensor, without delays: a
//! measurement is started, and read back once the sensor is no longer busy.
use vstd::prelude::*;

verus! {

/// The sensor's bus address.
pub const I2C_ADDRESS: u8 = 0x38;

/// Status bit: a measurement is in progress.
pub const STATUS_BUSY: u8 = 0x80;

/// Status bit: the sensor is calibrated.
pub const STATUS_CALIBRATED: u8 = 0x08;

/// Blocking I2C master, as provided by the board support.
pub trait I2c {
    type Error;

    /// Writes `bytes` to the device at `address`.
    fn write(&mut self, address: u8, bytes: &[u8]) -> Result<(), Self::Error>;

    /// Writes `bytes` to the device at `address`, then reads as many bytes
    /// as `buffer` holds.
    fn write_read(&mut self, address: u8, bytes: &[u8], buffer: &mut [u8]) -> Result<(), Self::Error>;
}

/// AHT20 error.
#[derive(Debug)]
pub enum Error<E> {
    /// The sensor is not calibrated.
    Uncalibrated,
    /// The bus failed.
    Bus(E),
    /// The measurement's checksum does not match.
    Checksum,
}

/// Humidity reading: a 20-bit count.
#[derive(Debug, Clone, Copy, PartialEq, Eq, Structural)]
pub struct Humidity {
    pub h: u32,
}

/// Temperature reading: a 20-bit count.
#[derive(Debug, Clone, Copy, PartialEq, Eq, Structural)]
pub struct Temperature {
    pub t: u32,
}

/// Relative humidity in thousandths of a percent: `100 * h / 2^20`, rounded
/// down.
pub open spec fn milli_rh(h: int) -> int {
    100000 * h / 1048576
}

/// Temperature in thousandths of a degree Celsius: `200 * t / 2^20 - 50`,
/// rounded down.
pub open spec fn milli_celsius(t: int) -> int {
    200000 * t / 1048576 - 50000
}

pub fn rh_of_raw(h: u32) -> (r: i64)
    ensures
        r as int == milli_rh(h as int),
{
    assert(0 <= 100000 * (h as int) / 1048576 <= 100000 * 4294967295int / 1048576) by (nonlinear_arith)
        requires
            h <= 4294967295int,
    ;
    (100000 * (h as u64) / 1048576) as i64
}

pub fn celsius_of_raw(t: u32) -> (r: i64)
    ensures
        r as int == milli_celsius(t as int),
{
    assert(0 <= 200000 * (t as int) / 1048576 <= 200000 * 4294967295int / 1048576) by (nonlinear_arith)
        requires
            t <= 4294967295int,
    ;
    (200000 * (t as u64) / 1048576) as i64 - 50000
}

impl Humidity {
    /// Relative humidity in thousandths of a percent.
    pub fn rh(&self) -> (r: i64)
        ensures
            r as int == milli_rh(self.h as int),
    {
        rh_of_raw(self.h)
    }

    /// Raw humidity reading.
    pub fn raw(&self) -> (r: u32)
        ensures
            r == self.h,
    {
        self.h
    }
}

impl Temperature {
    /// Temperature in thousandths of a degree Celsius.
    pub fn celsius(&self) -> (r: i64)
        ensures
            r as int == milli_celsius(self.t as int),
    {
        celsius_of_raw(self.t)
    }

    /// Raw temperature reading.
    pub fn raw(&self) -> (r: u32)
        ensures
            r == self.t,
    {
        self.t
    }
}

pub open spec fn is_busy(status: u8) -> bool {
    status & STATUS_BUSY != 0
}

pub open spec fn is_calibrated(status: u8) -> bool {
    status & STATUS_CALIBRATED != 0
}

/// The humidity count of a measurement: 20 bits from bytes 1, 2 and the high
/// half of byte 3.
pub open spec fn humidity_bits(m: Seq<u8>) -> int {
    m[1] as int * 4096 + m[2] as int * 16 + m[3] as int / 16
}

/// The temperature count of a measurement: 20 bits from the low half of
/// byte 3 and bytes 4 and 5.
pub open spec fn temperature_bits(m: Seq<u8>) -> int {
    (m[3] as int % 16) * 65536 + m[4] as int * 256 + m[5] as int
}

/// The CRC-8 (polynomial 0x31, initial value 0xFF) of `data`.
pub uninterp spec fn crc8_nrsc5(data: Seq<u8>) -> u8;

/// Relies on the crc crate's `Crc::<u8>::new(&CRC_8_NRSC_5)` and `checksum`:
/// CRC-8 with polynomial 0x31, initial value 0xFF, no reflection, no final
/// xor, as the AHT20 datasheet specifies.
#[verifier::external_body]
fn crc8(data: &[u8]) -> (r: u8)
    ensures
        r == crc8_nrsc5(data@),
{
    crc::Crc::<u8>::new(&crc::CRC_8_NRSC_5).checksum(data)
}

/// What a 7-byte measurement `m` whose first six bytes have checksum `crc`
/// gives.
pub open spec fn measurement<E>(m: Seq<u8>, crc: u8) -> Result<(Humidity, Temperature), Error<E>> {
    if crc != m[6] {
        Err(Error::Checksum)
    } else if !is_calibrated(m[0]) {
        Err(Error::Uncalibrated)
    } else {
        Ok((Humidity { h: humidity_bits(m) as u32 }, Temperature { t: temperature_bits(m) as u32 }))
    }
}

/// Decodes a 7-byte measurement given the checksum of its first six bytes.
pub fn decode_measurement<E>(m: &[u8], crc: u8) -> (r: Result<(Humidity, Temperature), Error<E>>)
    requires
        m@.len() == 7,
    ensures
        r == measurement::<E>(m@, crc),
{
    if crc != m[6] {
        return Err(Error::Checksum);
    }
    if m[0] & STATUS_CALIBRATED == 0 {
        return Err(Error::Uncalibrated);
    }
    let b1 = m[1] as u32;
    let b2 = m[2] as u32;
    let b3 = m[3] as u32;
    let b4 = m[4] as u32;
    let b5 = m[5] as u32;
    let hum = b1 * 4096 + b2 * 16 + b3 / 16;
    let temp = (b3 % 16) * 65536 + b4 * 256 + b5;
    Ok((Humidity { h: hum }, Temperature { t: temp }))
}

/// Whether a status byte says a measurement is in progress.
pub fn status_busy(status: u8) -> (r: bool)
    ensures
        r == is_busy(status),
{
    status & STATUS_BUSY != 0
}

/// Whether a status byte says the sensor is calibrated.
pub fn status_calibrated(status: u8) -> (r: bool)
    ensures
        r == is_calibrated(status),
{
    status & STATUS_CALIBRATED != 0
}

/// One bus transfer made by the driver: the address, the bytes written,
/// the bytes read back (for a write-then-read), and whether the bus reported
/// success.
pub enum Transfer {
    Write { address: u8, bytes: Seq<u8>, ok: bool },
    WriteRead { address: u8, bytes: Seq<u8>, read: Seq<u8>, ok: bool },
}

pub open spec fn calibrate_bytes() -> Seq<u8> {
    seq![0xE1u8, 0x08u8, 0x00u8]
}

pub open spec fn reset_bytes() -> Seq<u8> {
    seq![0xBAu8]
}

pub open spec fn trigger_bytes() -> Seq<u8> {
    seq![0xACu8, 0x33u8, 0x00u8]
}

/// A write of `bytes` to the sensor, with its outcome.
pub open spec fn sensor_write(bytes: Seq<u8>, ok: bool) -> Transfer {
    Transfer::Write { address: I2C_ADDRESS, bytes, ok }
}

/// `t` is a read of `n` bytes from the sensor after writing the zero byte.
pub open spec fn is_sensor_read(t: Transfer, n: nat) -> bool {
    t matches Transfer::WriteRead { address, bytes, read, ok } && address == I2C_ADDRESS && bytes
        == seq![0u8] && read.len() == n
}

pub open spec fn transfer_ok(t: Transfer) -> bool {
    match t {
        Transfer::Write { ok, .. } => ok,
        Transfer::WriteRead { ok, .. } => ok,
    }
}

pub open spec fn transfer_read(t: Transfer) -> Seq<u8> {
    match t {
        Transfer::Write { .. } => Seq::empty(),
        Transfer::WriteRead { read, .. } => read,
    }
}

/// AHT20 driver. It keeps a ghost record of the transfers it has made.
pub struct Aht20Rtic<I2C> {
    i2c: I2C,
    log: Ghost<Seq<Transfer>>,
}

impl<I2C> Aht20Rtic<I2C> {
    /// The transfers made so far, oldest first.
    pub closed spec fn transfers(&self) -> Seq<Transfer> {
        self.log@
    }
}

impl<I2C: I2c> Aht20Rtic<I2C> {
    fn bus_write(&mut self, bytes: &[u8]) -> (r: Result<(), I2C::Error>)
        ensures
            final(self).transfers() == old(self).transfers().push(sensor_write(bytes@, r is Ok)),
    {
        let r = self.i2c.write(I2C_ADDRESS, bytes);
        self.log = Ghost(self.log@.push(sensor_write(bytes@, r is Ok)));
        r
    }

    fn bus_read<const N: usize>(&mut self) -> (r: (Result<(), I2C::Error>, [u8; N]))
        ensures
            final(self).transfers() == old(self).transfers().push(
                Transfer::WriteRead { address: I2C_ADDRESS, bytes: seq![0u8], read: r.1@, ok: r.0 is Ok },
            ),
            r.1@.len() == N,
    {
        let mut buf: [u8; N] = [0u8; N];
        let cmd: [u8; 1] = [0u8];
        let r = self.i2c.write_read(I2C_ADDRESS, &cmd, &mut buf);
        assert(cmd@ =~= seq![0u8]);
        self.log = Ghost(self.log@.push(Transfer::WriteRead { address: I2C_ADDRESS, bytes: cmd@, read: buf@, ok: r is Ok }));
        (r, buf)
    }

    /// Creates the driver and sends the calibration command `E1 08 00`;
    /// succeeds when that write does.
    pub fn new(i2c: I2C) -> (r: Result<Self, Error<I2C::Error>>)
        ensures
            r matches Err(e) ==> e is Bus,
            r matches Ok(d) ==> d.transfers() == seq![sensor_write(calibrate_bytes(), true)],
    {
        let mut dev = Aht20Rtic { i2c, log: Ghost(Seq::empty()) };
        match dev.calibrate() {
            Ok(()) => Ok(dev),
            Err(e) => Err(e),
        }
    }

    /// Sends the calibration command `E1 08 00`.
    pub fn calibrate(&mut self) -> (r: Result<(), Error<I2C::Error>>)
        ensures
            final(self).transfers() == old(self).transfers().push(sensor_write(calibrate_bytes(), r is Ok)),
            r matches Err(e) ==> e is Bus,
    {
        let cmd: [u8; 3] = [0xE1u8, 0x08u8, 0x00u8];
        assert(cmd@ =~= calibrate_bytes());
        match self.bus_write(&cmd) {
            Ok(()) => Ok(()),
            Err(e) => Err(Error::Bus(e)),
        }
    }

    /// Whether a measurement is in progress: bit 7 of the status byte read.
    pub fn busy(&mut self) -> (r: Result<bool, Error<I2C::Error>>)
        ensures
            final(self).transfers().len() == old(self).transfers().len() + 1,
            final(self).transfers().drop_last() == old(self).transfers(),
            is_sensor_read(final(self).transfers().last(), 1),
            r is Ok == transfer_ok(final(self).transfers().last()),
            r matches Ok(b) ==> b == is_busy(transfer_read(final(self).transfers().last())[0]),
            r matches Err(e) ==> e is Bus,
    {
        let (res, buf) = self.bus_read::<1>();
        match res {
            Ok(()) => Ok(status_busy(buf[0])),
            Err(e) => Err(Error::Bus(e)),
        }
    }

    /// Succeeds when bit 3 of the status byte read says the sensor is
    /// calibrated.
    pub fn calibrated(&mut self) -> (r: Result<(), Error<I2C::Error>>)
        ensures
            final(self).transfers().len() == old(self).transfers().len() + 1,
            final(self).transfers().drop_last() == old(self).transfers(),
            is_sensor_read(final(self).transfers().last(), 1),
            !transfer_ok(final(self).transfers().last()) ==> (r matches Err(e) && e is Bus),
            transfer_ok(final(self).transfers().last()) ==> (r is Ok <==> is_calibrated(
                transfer_read(final(self).transfers().last())[0],
            )) && (r matches Err(e) ==> e is Uncalibrated),
    {
        let (res, buf) = self.bus_read::<1>();
        match res {
            Ok(()) => if status_calibrated(buf[0]) {
                Ok(())
            } else {
                Err(Error::Uncalibrated)
            },
            Err(e) => Err(Error::Bus(e)),
        }
    }

    /// Sends the soft reset command `BA`.
    pub fn reset(&mut self) -> (r: Result<(), I2C::Error>)
        ensures
            final(self).transfers() == old(self).transfers().push(sensor_write(reset_bytes(), r is Ok)),
    {
        let cmd: [u8; 1] = [0xBAu8];
        assert(cmd@ =~= reset_bytes());
        self.bus_write(&cmd)
    }

    /// Sends the command `AC 33 00` that starts a measurement.
    pub fn start_read(&mut self) -> (r: Result<(), Error<I2C::Error>>)
        ensures
            final(self).transfers() == old(self).transfers().push(sensor_write(trigger_bytes(), r is Ok)),
            r matches Err(e) ==> e is Bus,
    {
        let cmd: [u8; 3] = [0xACu8, 0x33u8, 0x00u8];
        assert(cmd@ =~= trigger_bytes());
        match self.bus_write(&cmd) {
            Ok(()) => Ok(()),
            Err(e) => Err(Error::Bus(e)),
        }
    }

    /// Reads back a finished measurement: a bus error, or what the seven
    /// bytes read give once their checksum is checked.
    pub fn end_read(&mut self) -> (r: Result<(Humidity, Temperature), Error<I2C::Error>>)
        ensures
            final(self).transfers().len() == old(self).transfers().len() + 1,
            final(self).transfers().drop_last() == old(self).transfers(),
            is_sensor_read(final(self).transfers().last(), 7),
            !transfer_ok(final(self).transfers().last()) ==> (r matches Err(e) && e is Bus),
            transfer_ok(final(self).transfers().last()) ==> ({
                let m = transfer_read(final(self).transfers().last());
                r == measurement::<I2C::Error>(m, crc8_nrsc5(m.subrange(0, 6)))
            }),
    {
        let (res, buf) = self.bus_read::<7>();
        match res {
            Ok(()) => {},
            Err(e) => return Err(Error::Bus(e)),
        }
        let data: &[u8] = &buf;
        let head = vstd::slice::slice_subrange(data, 0, 6);
        let crc = crc8(head);
        decode_measurement(data, crc)
    }
}

} // verus!
