use ina219_rs::ina219::{
    current_mA, power_uW, register_value, signed_reading, voltage_raw, write_frame, Calibration,
    Register, INA219_ADDR,
};

#[test]
fn calibration_profiles() {
    let c = Calibration::setCalibration_32V_2A();
    assert_eq!((c.cal_value, c.config, c.current_divider_mA, c.power_lsb_uW), (4096, 0x399F, 10, 2000));
    let c = Calibration::setCalibration_32V_1A();
    assert_eq!((c.cal_value, c.config, c.current_divider_mA, c.power_lsb_uW), (10240, 0x399F, 25, 800));
    let c = Calibration::setCalibration_16V_400mA();
    assert_eq!((c.cal_value, c.config, c.current_divider_mA, c.power_lsb_uW), (8192, 0x019F, 20, 1000));
}

#[test]
fn register_frames() {
    let c = Calibration::setCalibration_32V_2A();
    assert_eq!(c.calibration_frame(), [Register::Calibration, 0x10, 0x00]);
    assert_eq!(c.configuration_frame(), [Register::Configuration, 0x39, 0x9F]);
    assert_eq!(write_frame(Register::Power, 0xABCD), [3, 0xAB, 0xCD]);
    assert_eq!(INA219_ADDR, 0x40);
}

#[test]
fn raw_readings() {
    assert_eq!(register_value([0x12, 0x34]), 0x1234);
    assert_eq!(signed_reading(0xFFFF), -1);
    assert_eq!(signed_reading(0x7FFF), 32767);
    assert_eq!(signed_reading(0x8000), -32768);
    assert_eq!(voltage_raw(0x1F40), 4000);
    assert_eq!(current_mA(-25, 10), -2);
    assert_eq!(current_mA(25, 10), 2);
    assert_eq!(power_uW(3, 2000), 6000);
    assert_eq!(power_uW(-3, 800), -2400);
}
