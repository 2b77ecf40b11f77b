# vsm

A virtual spatial microphone: the voice of a person in a virtual world, heard from
where the camera is. A recording holds the microphone, the clock of its device and the
positions that were received, so that it can be processed again at any time.

`src/` is the library. What is decided stands there and is verified:

- `text`, `bits`, `math`, `json`, `codec`, `clock`: strings, bit patterns of numbers,
  documents, base64 and digests, times.
- `osc`, `pose`, `dns`, `query`: messages, the pose that they tell of, and how services
  find each other.
- `agenda`, `processor`, `pipeline`, `dsp`, `playback`, `reprocess`: events in the order
  of their times, audio in blocks, gains, and recordings heard or processed again.
- `wave`, `session`, `paths`, `simple`: files of audio, settings, names and places of
  recordings, and the calibration of a camera.
- `queue`, `ring`, `engine`, `capture`, `device`, `meter`, `monitor`: the live session.
- `obs`, `studio`: what a host and the desktop window ask for.

Samples, gains and positions are carried as the bit patterns of floating-point numbers;
what is computed of them is computed in `app/`, together with files, sockets, threads
and devices.
