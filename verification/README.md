# iso_tp

ISO-TP over CAN, verified with Verus: single, first, consecutive and
flow-control frames segment a payload of up to 4095 bytes, or far more with the
length escape, across the bus and reassemble it, with block size and separation
time from the receiver.

The library under `src/` holds every decision of a session and no bus. A session
is a chain of steps: each step says what the bus is to do next (put a frame on
it, read it, leave a gap) and takes back what came of it.

| module | what it holds |
| --- | --- |
| `frame` | the four kinds of frame, built and read |
| `bus` | the CAN frames an end transmits, and what it makes of what it reads |
| `pacing` | what a receiver asks of its sender |
| `deliver`, `collect` | the two sides of a session, step by step |
| `transport` | one end: its buses, its identifier, its pacing, its timeout |
| `loopback` | both ends on one machine, and the sessions that stand |
| `block`, `sending`, `message` | what is proved of the frames that one clearance lets through, of those that a whole delivery puts out, and of those that make up one message |
| `limits`, `round`, `rounds` | what is proved of every step, of whole rounds, and of rounds driven at once |
| `error`, `numeral` | what can go wrong, and how it is told |

`app/` carries the steps out on real buses, with threads and clocks.
