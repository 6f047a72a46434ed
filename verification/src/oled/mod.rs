//! The SSD1306 OLED display driven over software I2C.

pub mod bus;
pub mod receiver;
pub mod display;
pub mod controller;
