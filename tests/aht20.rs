use thermostazv::aht20::{
    celsius_of_raw, decode_measurement, rh_of_raw, status_busy, status_calibrated, Aht20Rtic, Error,
    Humidity, I2c, Temperature,
};

/// CRC-8, polynomial 0x31, initial value 0xFF, bit by bit.
fn reference_crc(data: &[u8]) -> u8 {
    let mut crc: u8 = 0xFF;
    for b in data {
        crc ^= b;
        for _ in 0..8 {
            crc = if crc & 0x80 != 0 { (crc << 1) ^ 0x31 } else { crc << 1 };
        }
    }
    crc
}

struct MockBus {
    writes: Vec<(u8, Vec<u8>)>,
    reply: Vec<u8>,
    fail: bool,
}

impl I2c for MockBus {
    type Error = &'static str;

    fn write(&mut self, address: u8, bytes: &[u8]) -> Result<(), Self::Error> {
        if self.fail {
            return Err("nack");
        }
        self.writes.push((address, bytes.to_vec()));
        Ok(())
    }

    fn write_read(&mut self, address: u8, bytes: &[u8], buffer: &mut [u8]) -> Result<(), Self::Error> {
        if self.fail {
            return Err("nack");
        }
        self.writes.push((address, bytes.to_vec()));
        buffer.copy_from_slice(&self.reply[..buffer.len()]);
        Ok(())
    }
}

fn bus(reply: Vec<u8>) -> MockBus {
    MockBus { writes: Vec::new(), reply, fail: false }
}

fn measurement_bytes(status: u8, h: u32, t: u32) -> Vec<u8> {
    let mut m = vec![
        status,
        (h >> 12) as u8,
        (h >> 4) as u8,
        (((h & 0xF) << 4) | (t >> 16)) as u8,
        (t >> 8) as u8,
        t as u8,
    ];
    m.push(reference_crc(&m));
    m
}

#[test]
fn reference_crc_check_value() {
    assert_eq!(reference_crc(b"123456789"), 0xF7);
}

#[test]
fn new_sends_calibration() {
    let dev = Aht20Rtic::new(bus(vec![0x18])).ok().unwrap();
    drop(dev);
    let mut b = bus(vec![]);
    b.fail = true;
    assert!(matches!(Aht20Rtic::new(b), Err(Error::Bus("nack"))));
}

#[test]
fn status_bits() {
    assert!(status_busy(0x80));
    assert!(!status_busy(0x7F));
    assert!(status_calibrated(0x08));
    assert!(!status_calibrated(0xF7));
    let mut dev = Aht20Rtic::new(bus(vec![0x98])).ok().unwrap();
    assert!(matches!(dev.busy(), Ok(true)));
    assert!(matches!(dev.calibrated(), Ok(())));
    let mut dev = Aht20Rtic::new(bus(vec![0x10])).ok().unwrap();
    assert!(matches!(dev.busy(), Ok(false)));
    assert!(matches!(dev.calibrated(), Err(Error::Uncalibrated)));
    assert!(dev.reset().is_ok());
    assert!(dev.start_read().is_ok());
}

#[test]
fn decodes_measurement_counts() {
    let m = measurement_bytes(0x1C, 0x6_5432, 0x5_ABCD);
    match decode_measurement::<()>(&m, m[6]) {
        Ok((h, t)) => {
            assert_eq!(h.raw(), 0x6_5432);
            assert_eq!(t.raw(), 0x5_ABCD);
        }
        Err(e) => panic!("{e:?}"),
    }
    assert!(matches!(decode_measurement::<()>(&m, m[6] ^ 1), Err(Error::Checksum)));
    let u = measurement_bytes(0x10, 1, 2);
    assert!(matches!(decode_measurement::<()>(&u, u[6]), Err(Error::Uncalibrated)));
}

#[test]
fn end_read_checks_crc() {
    let m = measurement_bytes(0x1C, 0x8_0000, 0x4_0000);
    let mut dev = Aht20Rtic::new(bus(m.clone())).ok().unwrap();
    match dev.end_read() {
        Ok((h, t)) => {
            assert_eq!(h.raw(), 0x8_0000);
            assert_eq!(t.raw(), 0x4_0000);
            assert_eq!(h.rh(), 50_000);
            assert_eq!(t.celsius(), 0);
        }
        Err(e) => panic!("{e:?}"),
    }
    let mut bad = m;
    bad[6] ^= 0xFF;
    let mut dev = Aht20Rtic::new(bus(bad)).ok().unwrap();
    assert!(matches!(dev.end_read(), Err(Error::Checksum)));
}

#[test]
fn conversions() {
    assert_eq!(Humidity { h: 1 << 20 }.rh(), 100_000);
    assert_eq!(Temperature { t: 1 << 20 }.celsius(), 150_000);
    assert_eq!(rh_of_raw(0), 0);
    assert_eq!(celsius_of_raw(0), -50_000);
    assert_eq!(celsius_of_raw(u32::MAX), 819_149_999);
}
