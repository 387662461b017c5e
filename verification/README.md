# Glide

Touchpad motion detection that turns a touchpad into a modifier key: touch the pad and move the
finger, and keys remap; lift the finger, and they are back to normal. Glide tells intentional use
of the touchpad from accidental contact and has [kanata](https://github.com/jtroo/kanata) press or
release a virtual key over TCP.

The library under `src/` is written in Verus; its contracts are proved. The program under `app/`
holds what is left around it: the command line, the input devices, the TCP connection, and JSON with
its floating-point figures.

## Library

| Module | What it does |
| --- | --- |
| `clock` | Instants and spans of time, and the monotonic clock |
| `input` | Fields and meaning of evdev events |
| `sampler` | Batches of events become finger contacts and position samples |
| `algorithm` | The activation algorithms' interface, and the rolling window algorithm |
| `window` | Rolling windows of timestamped samples |
| `streak` | The consecutive streak algorithm |
| `runs` | Runs of set flags, and the longest of them |
| `detector` | From events to activation in one step, over a rolling window |
| `backend` | Messages to kanata, and what to do on the connection |
| `episode` | Statistics of what happens while a finger is down |
| `keyboard` | Recent key presses |
| `session` | Sampler, algorithm and episodes at work together |
| `record` | Records of a session |
| `detect` | Finding the touchpad among the input devices |

Where the library needs a distance it holds the square of it, and where it needs a ratio it holds
the two counts, so that all of its figures are integers.

An instant is held as nanoseconds after the origin of a clock, in the range of 64-bit seconds, so
instants before the origin exist as well.

Properties that span several functions stand as public proof functions whose names begin with
`law_`, next to what they speak of. `session::law_session_takes_turns` is the one that covers a
whole session: presses and releases take turns, a press first.

What is believed without proof is marked `external_body` or `external_type_specification`: the
fields of evdev events and the membership test of evdev's attribute sets, the reading of the clock,
and the debug form of a string.

## Program

```
--list-devices          List detected touchpad devices and exit
--device                Touchpad evdev path (auto-detects if omitted)
--kanata-address        Kanata TCP address (default: 127.0.0.1:7070)
--virtual-key           Virtual key name (default: pad-touch)
--motion-threshold      Min displacement per sample to count as motion (default: 2)
--min-streak            Consecutive motion samples to activate (default: 16)
--algorithm             streak (default) or window
--activation-window-ms  Length of the rolling window (default: 200)
--activation-ratio      Percentage that samples with motion have to exceed (default: 50)
--record                Dump JSONL trace data to stdout for analysis
--label                 Tag a recording session
--keyboard-device       Optional keyboard evdev for context logging
```
