# cortex

Control software for a humanoid robot's arms and waist (RobStride RS03
actuators on a CAN bus), split in two:

- `src/` — the verified library (Verus): the robot configuration model and
  its CAN-ID bookkeeping, the serial CAN adapter's wire framing and receive
  loop decisions, stall and resistance counting, the log ring buffer, and the
  small decision rules of the control API (joint naming, log limits, discovery,
  sequences, console commands, pre-flight refusal).
- `app/` — the programs around it: the HTTPS/WebTransport control server,
  the bench tools (probe, wave demo, motor console), the async bus I/O, and
  the floating-point joint-angle arithmetic.
- `tests/` — tests of the library on concrete values.
