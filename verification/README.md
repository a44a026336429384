# ohhplayer

The logic of a lightweight video player (FFmpeg decoding, SDL2 audio, a
Slint window), written in Verus and proved against its contracts.

- `src/` — the verified library:
  - `text`: decimal numbers, trimming, appending to strings;
  - `clock`: the `HH:MM:SS / HH:MM:SS` time text;
  - `logger`: the bounded message log and the filter for libav messages;
  - `history`: the recent-files file format, its update when a file is
    opened, and the file names shown in the menu;
  - `positions`: the per-file resume positions;
  - `playback`: what the video and audio threads do with the window's
    commands before each packet;
  - `controls`: on-screen texts, the accelerating relative seek,
    picture-in-picture, and the window-manager floating command;
  - `overlay`: the resident memory shown in the debug overlay.
- `app/` — the program around it: the window, the media library calls,
  the audio device, files and settings, and the floating-point timing and
  fading.
- `tests/` — tests of the library on concrete values, including checks
  that the rebuilt text and path routines agree with the standard library.
