# Genkan

Genkan is a graphical login greeter and session locker for Wayland. This crate
holds its rules as a verified library, and the program around them.

- `src/` is the library. Every function in it carries a contract that Verus
  proves.
  - `dynamic_wallpaper/` reads dynamic HEIC wallpapers: the container's walk
    before anything else parses it, the metadata and the property lists inside,
    color profiles, pixels, and the schedule by which images come on show.
  - `wallpaper/` decides what is in the background: the catalog, the worker that
    decodes in a process of its own, the relay of its frames, video loops, and
    what stays on show when something fails.
  - `locker/` is the session locker: who owns a lock, what its worker processes
    inherit, the conversation with the authentication worker, and the picture
    that is drawn.
  - The other modules hold sessions, outputs, command line values, styles, power
    actions and location requests, with the text and byte functions they share.
- `tests/` runs the library.
- `app/` is the program: input and output, processes, the graphical toolkit, the
  decoders, and what is computed in floating point. Playing videos and decoding
  HEIC images needs the GStreamer and libheif libraries of the system.

Times are counted in nanoseconds. Where a value is a 64-bit float outside, the
library holds its bits.

The library calls outside crates through a few functions whose contracts are
stated and not proved. Each has a comment that names the outside function and
what is claimed of it.
