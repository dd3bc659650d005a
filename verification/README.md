# bahilizator

The logic of a shoe-cover vending machine, written in Verus: it takes coins, dispenses a pair of shoe covers, gives
change, keeps its counters across a power cut, and lets an engineer with a DS1990 key into a service menu.

`src/` is the machine. Every function of it is verified against its contract. None of it touches a pin or waits for
anything: it is told what was read and what happened, and answers with what is to be done. `app/` is the rest: the
desktop simulator, and the tasks that hold the pins of the real machine. The latter do not make a firmware image by
themselves, since `src/` uses the `Vec` and `String` of the standard library, which the machine's MSP430 lacks.

| Module | What it does |
| --- | --- |
| `config`, `state` | Where everything is wired; settings and counters |
| `error`, `shared` | The faults the machine can be in, and how the tasks share them |
| `event` | What can happen to the machine |
| `buttons`, `coin_acceptor`, `ibutton`, `hopper` | The devices it listens to and drives |
| `text`, `cyrillic`, `ui`, `lcd` | What the display says, and how it gets there |
| `report`, `menu` | The numbers an engineer wants, and the menu they use |
| `change` | How to pay an amount out of coin hoppers |
| `nvram` | Settings, a wear-levelled counter journal and an event log, in flash |
| `vending` | The sale itself |
| `sim` | The machine without the hardware |
| `bounded` | The bounded text and lists of `heapless`, with what is taken on trust of them |

What holds of the machine as a whole is stated in proof functions whose names begin with `law_`. Among them: money is
conserved (`vending::laws`), a power cut loses neither counters nor debts nor, unless it is they that are being
stored, settings, between any two writes or in the middle of one, however often it happens (`vending::durability`), the
coin acceptor is shut for the whole of an engineer's visit (`vending::visit`), a save that a power cut interrupts gives
back the one before it, and the save after that is read back like any other (`nvram::journal`).

What is not proved stands in `bounded` and `shared`: a few methods of `heapless` and `portable_atomic`, each with what
is claimed of it.
