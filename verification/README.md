# ros2dreame

ROS 2 bridge for the Dreame Bot W10 (r2104), with its protocols and driving rules verified in
Verus.

- `src/` is the verified library. Every function states in its contract what it returns or
  changes; public proof functions named `law_..` state what holds of several of them together.
  - the MCU link: `crc`, `frame`, `bytes`, `status`, `triggers`, `message`, `command`
  - the LDS: `lds`, `sweep`
  - driving: `shared`, `driver`, `dock`, `receiver`, and speeds as bit patterns in `binary32`
  - the minimal teleoperation driver: `control`, `mcud`
  - the rest: `msg`, `publish`, `camera`, `jpeg`, `timesync`
- `app/` is the program around it: serial ports, sockets, threads, ROS 2 publishers, and the
  conversions to floating point.
- `tests/` runs the library on concrete values.

Speeds are held as the bit patterns of binary32 values: the MCU takes them as four bytes, and
all that the rules ask of them is their order. Distances, angles and times are integers.
