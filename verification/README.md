# hyprdesk

Shared-monitor virtual desktops for Hyprland: one "desk" spans every
monitor, and desk `d` on monitor slot `m` is Hyprland workspace `d + 10*m`.

- `src/` is the verified library: the desk model (`model`), the wire
  protocol (`protocol`), the compositor vocabulary and Lua rendering
  (`hypr`), the daemon's decisions and window memory (`daemon`,
  `memory`), the waybar strip (`waybar`), the command line (`cli`) and
  text helpers (`text`). Its functions carry contracts that Verus
  proves, and the laws of the library (request round trip, mapping round
  trip, window memory bringing windows home, one reply line per request,
  ...) are proof functions. Two contracts are trusted rather than proved:
  the specification given to `String::push`, and the wrapper around
  `serde_json::to_string` that renders the waybar strings, whose contract
  states serde_json's string escaping.
- `app/` is the program around it: sockets, threads, environment and JSON
  decoding.
- `tests/` exercises the library on concrete values.
