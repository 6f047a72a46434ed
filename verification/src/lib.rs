//! Verified logic of a set of STM32F1 ("blue pill") board programs: the
//! software-I2C driver of an SSD1306 OLED, number rendering, interrupt
//! counters, timer and motor decisions, and radio payload handling.

pub mod numfmt;
pub mod oled;
pub mod nrf24;
pub mod input;
pub mod counters;
pub mod timers;
pub mod motor;
pub mod adc;
pub mod rtc_clock;
