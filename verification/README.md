# reims-vgpu

The host side of a virtual GPU that shows its guest on a bare DRM connector and
takes keyboards and mice straight from evdev, written and proved in Verus.

- `src/` is the library: which connector and mode are taken, where a frame and the
  guest's cursor go, what a capture request may name, how evdev events become
  guest input, and every refusal by name. It is verified, but for the few trusted
  items below.
- `app/` is ordinary Rust around it: threads, ioctls, files.
- `tests/` runs the library on concrete values.

## Laws

Public proof functions named `law_*` state what holds of all inputs, for example:

- every key and button the guest was told went down is told to go up again by the
  time its device is gone (`host_input::evdev::law_every_press_is_released`);
- the pointer never leaves the guest's frame
  (`host_window::pointer::law_motion_stays_in_frame`);
- an accepted capture stays in `/tmp`
  (`host_display::capture::law_capture_stays_in_tmp`);
- a frame is shown whole, centred and as large as fits
  (`backend::window::viewport::law_fit_is_a_centred_letterbox`);
- a lost presenter is rebuilt no more often than its budget allows
  (`host_display::run::law_failures_are_bounded`).

## What is not proved

Items marked `#[verifier::external_body]` are trusted; the comment above each says
which call it makes and what is claimed of it.

Which byte order the machine has, and how the operating system words an error, are
left to the machine. Where a pointer behind a lock is when a report closes depends on
every mouse, so `Translator::feed` says of a shared pointer only that the move starts
inside its frame; with a pointer of its own, and in `feed_at` and `feed_all`, where the
pointer is handed in, the move and where it leaves the pointer are exact.
