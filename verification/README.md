# rpi_hal

Drivers for peripherals of the Raspberry Pi, verified with Verus: the watchdog, the USB
host controller with hubs, HID devices and the on-board Ethernet chips, the V3D, and the
firmware's message transport with the video decoder behind it.

A driver function's contract says which requests it puts to the hardware for every answer
that the hardware can give, and what it returns: the requests and answers that it adds to
its history are one run of a given *program* (`src/program.rs`). What the history holds
was asked of the hardware, and nothing is assumed of what the hardware answers. Work that is awaited is a runner that names the next request
and is told its answer.

- `src/watchdog.rs`, `src/registers.rs`: the watchdog, and memory-mapped registers.
- `src/usb/`: the controller (`dwc2`), control transfers, descriptors, hubs, the bus, HID
  devices, and the LAN7800 and LAN9514. What holds of all of it at once stands in
  `topology`, `departures`, `one_at_a_time`, `port_account`, `control/stages`,
  `chip/kept`, `dwc2/isolation`, `dwc2/upkeep` and `dwc2/plan`.
- `src/v3d/`: the GPU, and the lists, records and uniforms that it is fed.
- `src/vchiq/`: the transport. `ram` follows a message through the shared memory,
  `page_lists` the page lists of bulk transfers, and `ports` the ports of services.
- `src/video_decode.rs`, `src/mmal.rs`: the video decoder.
- `tests/`: the drivers against simulated hardware.
- `app/`: what runs on a board: volatile registers, caches, interrupts, wakers, and the
  smoltcp device.
