#![allow(non_snake_case)]
#![allow(non_camel_case_types)]
#![allow(non_upper_case_globals)]

pub mod error;
pub mod ina219;
pub mod physic;
pub mod round_trip;
