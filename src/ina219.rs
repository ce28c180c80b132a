use vstd::prelude::*;

verus! {

/// The bus address of the INA219.
pub const INA219_ADDR: u8 = 0x40;

/// Bus voltage range: mask, 16 V and 32 V.
pub const INA219_CONFIG_BVOLTAGERANGE_MASK: u16 = 0x2000;
pub const INA219_CONFIG_BVOLTAGERANGE_16V: u16 = 0x0000;
pub const INA219_CONFIG_BVOLTAGERANGE_32V: u16 = 0x2000;

/// Shunt gain: mask, and full-scale ranges of 40, 80, 160 and 320 mV.
pub const INA219_CONFIG_GAIN_MASK: u16 = 0x1800;
pub const INA219_CONFIG_GAIN_1_40MV: u16 = 0x0000;
pub const INA219_CONFIG_GAIN_2_80MV: u16 = 0x0800;
pub const INA219_CONFIG_GAIN_4_160MV: u16 = 0x1000;
pub const INA219_CONFIG_GAIN_8_320MV: u16 = 0x1800;

/// Bus ADC resolution and averaging.
pub const INA219_CONFIG_BADCRES_MASK: u16 = 0x0780;
pub const INA219_CONFIG_BADCRES_9BIT: u16 = 0x0000;
pub const INA219_CONFIG_BADCRES_10BIT: u16 = 0x0080;
pub const INA219_CONFIG_BADCRES_11BIT: u16 = 0x0100;
pub const INA219_CONFIG_BADCRES_12BIT: u16 = 0x0180;
pub const INA219_CONFIG_BADCRES_12BIT_2S_1060US: u16 = 0x0480;
pub const INA219_CONFIG_BADCRES_12BIT_4S_2130US: u16 = 0x0500;
pub const INA219_CONFIG_BADCRES_12BIT_8S_4260US: u16 = 0x0580;
pub const INA219_CONFIG_BADCRES_12BIT_16S_8510US: u16 = 0x0600;
pub const INA219_CONFIG_BADCRES_12BIT_32S_17MS: u16 = 0x0680;
pub const INA219_CONFIG_BADCRES_12BIT_64S_34MS: u16 = 0x0700;
pub const INA219_CONFIG_BADCRES_12BIT_128S_69MS: u16 = 0x0780;

/// Shunt ADC resolution and averaging.
pub const INA219_CONFIG_SADCRES_MASK: u16 = 0x0078;
pub const INA219_CONFIG_SADCRES_9BIT_1S_84US: u16 = 0x0000;
pub const INA219_CONFIG_SADCRES_10BIT_1S_148US: u16 = 0x0008;
pub const INA219_CONFIG_SADCRES_11BIT_1S_276US: u16 = 0x0010;
pub const INA219_CONFIG_SADCRES_12BIT_1S_532US: u16 = 0x0018;
pub const INA219_CONFIG_SADCRES_12BIT_2S_1060US: u16 = 0x0048;
pub const INA219_CONFIG_SADCRES_12BIT_4S_2130US: u16 = 0x0050;
pub const INA219_CONFIG_SADCRES_12BIT_8S_4260US: u16 = 0x0058;
pub const INA219_CONFIG_SADCRES_12BIT_16S_8510US: u16 = 0x0060;
pub const INA219_CONFIG_SADCRES_12BIT_32S_17MS: u16 = 0x0068;
pub const INA219_CONFIG_SADCRES_12BIT_64S_34MS: u16 = 0x0070;
pub const INA219_CONFIG_SADCRES_12BIT_128S_69MS: u16 = 0x0078;

/// Operating mode.
pub const INA219_CONFIG_MODE_MASK: u16 = 0x0007;
pub const INA219_CONFIG_MODE_POWERDOWN: u16 = 0x00;
pub const INA219_CONFIG_MODE_SVOLT_TRIGGERED: u16 = 0x01;
pub const INA219_CONFIG_MODE_BVOLT_TRIGGERED: u16 = 0x02;
pub const INA219_CONFIG_MODE_SANDBVOLT_TRIGGERED: u16 = 0x03;
pub const INA219_CONFIG_MODE_ADCOFF: u16 = 0x04;
pub const INA219_CONFIG_MODE_SVOLT_CONTINUOUS: u16 = 0x05;
pub const INA219_CONFIG_MODE_BVOLT_CONTINUOUS: u16 = 0x06;
pub const INA219_CONFIG_MODE_SANDBVOLT_CONTINUOUS: u16 = 0x07;

/// The addresses of the INA219's registers.
pub struct Register;

impl Register {
    pub const Configuration: u8 = 0x00;
    pub const ShuntVoltage: u8 = 0x01;
    pub const BusVoltage: u8 = 0x02;
    pub const Power: u8 = 0x03;
    pub const Current: u8 = 0x04;
    pub const Calibration: u8 = 0x05;
}

/// A measuring range: the calibration register value, the configuration
/// word, the divider from raw current to milliampere and the power of one
/// raw power step in microwatt.
#[derive(Clone, Copy, Debug, PartialEq, Eq, Structural)]
pub struct Calibration {
    pub cal_value: u16,
    pub config: u16,
    pub current_divider_mA: i16,
    pub power_lsb_uW: u32,
}

impl Calibration {
    /// Up to 32 V and 2 A on a 0.1 Ω shunt: 100 µA and 2 mW per bit.
    pub fn setCalibration_32V_2A() -> (c: Calibration)
        ensures
            c == (Calibration {
                cal_value: 4096,
                config: 0x399F,
                current_divider_mA: 10,
                power_lsb_uW: 2000,
            }),
    {
        let config = INA219_CONFIG_BVOLTAGERANGE_32V | INA219_CONFIG_GAIN_8_320MV
            | INA219_CONFIG_BADCRES_12BIT | INA219_CONFIG_SADCRES_12BIT_1S_532US
            | INA219_CONFIG_MODE_SANDBVOLT_CONTINUOUS;
        assert(0x2000u16 | 0x1800u16 | 0x0180u16 | 0x0018u16 | 0x07u16 == 0x399Fu16)
            by (bit_vector);
        Calibration { cal_value: 4096, config, current_divider_mA: 10, power_lsb_uW: 2000 }
    }

    /// Up to 32 V and 1 A on a 0.1 Ω shunt: 40 µA and 800 µW per bit.
    pub fn setCalibration_32V_1A() -> (c: Calibration)
        ensures
            c == (Calibration {
                cal_value: 10240,
                config: 0x399F,
                current_divider_mA: 25,
                power_lsb_uW: 800,
            }),
    {
        let config = INA219_CONFIG_BVOLTAGERANGE_32V | INA219_CONFIG_GAIN_8_320MV
            | INA219_CONFIG_BADCRES_12BIT | INA219_CONFIG_SADCRES_12BIT_1S_532US
            | INA219_CONFIG_MODE_SANDBVOLT_CONTINUOUS;
        assert(0x2000u16 | 0x1800u16 | 0x0180u16 | 0x0018u16 | 0x07u16 == 0x399Fu16)
            by (bit_vector);
        Calibration { cal_value: 10240, config, current_divider_mA: 25, power_lsb_uW: 800 }
    }

    /// Up to 16 V and 400 mA on a 0.1 Ω shunt: 50 µA and 1 mW per bit.
    pub fn setCalibration_16V_400mA() -> (c: Calibration)
        ensures
            c == (Calibration {
                cal_value: 8192,
                config: 0x019F,
                current_divider_mA: 20,
                power_lsb_uW: 1000,
            }),
    {
        let config = INA219_CONFIG_BVOLTAGERANGE_16V | INA219_CONFIG_GAIN_1_40MV
            | INA219_CONFIG_BADCRES_12BIT | INA219_CONFIG_SADCRES_12BIT_1S_532US
            | INA219_CONFIG_MODE_SANDBVOLT_CONTINUOUS;
        assert(0x0000u16 | 0x0000u16 | 0x0180u16 | 0x0018u16 | 0x07u16 == 0x019Fu16)
            by (bit_vector);
        Calibration { cal_value: 8192, config, current_divider_mA: 20, power_lsb_uW: 1000 }
    }

    /// The bytes that load the calibration register.
    pub fn calibration_frame(&self) -> (f: [u8; 3])
        ensures
            f@ == register_write(Register::Calibration, self.cal_value),
    {
        write_frame(Register::Calibration, self.cal_value)
    }

    /// The bytes that load the configuration register.
    pub fn configuration_frame(&self) -> (f: [u8; 3])
        ensures
            f@ == register_write(Register::Configuration, self.config),
    {
        write_frame(Register::Configuration, self.config)
    }
}

/// The bytes that write `value` to `register`: the address, then the value
/// with its high byte first.
pub open spec fn register_write(register: u8, value: u16) -> Seq<u8> {
    seq![register, (value / 256) as u8, (value % 256) as u8]
}

/// The bytes that write `value` to `register`.
pub fn write_frame(register: u8, value: u16) -> (f: [u8; 3])
    ensures
        f@ == register_write(register, value),
{
    let f = [register, (value / 256) as u8, (value % 256) as u8];
    assert(f@ =~= register_write(register, value));
    f
}

/// The value of a register as read, high byte first.
pub fn register_value(buf: [u8; 2]) -> (v: u16)
    ensures
        v == buf@[0] * 256 + buf@[1],
{
    buf[0] as u16 * 256 + buf[1] as u16
}

/// A register value read as a signed two's-complement number.
pub open spec fn as_signed(value: u16) -> int {
    if value < 32768 {
        value as int
    } else {
        value - 65536
    }
}

/// A shunt voltage, current or power reading, as the signed number it holds.
pub fn signed_reading(value: u16) -> (r: i16)
    ensures
        r == as_signed(value),
{
    if value < 32768 {
        value as i16
    } else {
        (value as i32 - 65536) as i16
    }
}

/// The raw bus voltage, in mV: the register's upper 13 bits count 4 mV steps.
pub fn voltage_raw(value: u16) -> (r: i16)
    ensures
        r == (value / 8) * 4,
{
    ((value / 8) * 4) as i16
}

/// A raw current reading in milliampere: divided by the range's divider,
/// the quotient truncated toward zero.
pub fn current_mA(raw: i16, divider: i16) -> (r: i16)
    requires
        divider > 0,
    ensures
        raw >= 0 ==> r == raw as int / divider as int,
        raw < 0 ==> r == -((-(raw as int)) / divider as int),
{
    if raw >= 0 {
        raw / divider
    } else {
        let m: i32 = -(raw as i32);
        -(m / divider as i32) as i16
    }
}

/// A raw power reading in microwatt.
pub fn power_uW(raw: i16, lsb_uW: u32) -> (r: i64)
    ensures
        r == raw * lsb_uW,
{
    assert(-32768 * 4294967295 <= raw * lsb_uW <= 32767 * 4294967295) by (nonlinear_arith)
        requires
            -32768 <= raw <= 32767,
            0 <= lsb_uW <= 4294967295,
    ;
    raw as i64 * lsb_uW as i64
}

} // verus!
