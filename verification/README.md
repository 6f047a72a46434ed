# bluepill

The logic of a set of STM32F103 ("blue pill") demo programs, as a Verus
library with proved contracts, and the firmware around it.

- `src/oled/` drives an SSD1306 OLED over bit-banged I2C. Every drawing
  routine appends the SCL/SDA level changes it makes to a list of bus
  operations. `receiver.rs` models the receiving end of the bus and proves
  that the display decodes exactly the commands and data that were written;
  `controller.rs` models the display memory and proves what characters,
  numbers and clearing leave on the screen.
- `src/numfmt.rs` holds integer powers and the digit sequences shown for
  numbers, with the proof that the digits read back as the number.
- `src/counters.rs`, `src/timers.rs`, `src/input.rs`, `src/motor.rs` and
  `src/adc.rs` hold the decisions of interrupt handlers, timer and scheduler
  tasks, key, LED and motor control.
- `src/nrf24.rs` turns radio payloads into `heapless` strings;
  `src/rtc_clock.rs` turns RTC readings into calendar dates with the `time`
  crate.
- `app/` is the firmware: peripheral set-up, pin I/O, delays and interrupt
  plumbing, calling the library for every decision. The 8x16 OLED font is
  linked in from a separate object.
