# kgdb-console-splitting-proxy

A TCP / UDP / serial proxy for kernel and embedded debugging. It lets one serial line carry a
console and a kgdb session at the same time: debugger clients get the GDB remote packets that
the line sends, console clients get everything else, and a break drops the kernel into kgdb
when a debugger connects. Without the filter both get everything.

The decisions of the proxy are a library that is verified with Verus. The program around it
opens descriptors, waits for them, and carries out what the library asks for.

## Layout

- `src/` is the verified library.
  - `cli`, `endpoint`, `plan`, `setup`: the command line, endpoints, what it takes to open
    them, and how ports are joined.
  - `port`, `table`, `fdset`, `state`: ports, the descriptors that are waited on, and what
    holds of them between any two operations.
  - `turn`, `receive`, `accept`, `remote`, `ready`, `serial`: which ports are served, and what
    follows from data, new connections, ports that are ready to be written, and serial devices
    that are lost or come back.
  - `round`, `write`, `telnet`, `splitter`, `kill`: breaks and writes in order, partial writes
    and queues, the Telnet layer, GDB packets, and what ends with a port.
  - `device`, `rs232`, `errno`: serial device names, line settings, error numbers.
  - `status`, `amount`: the status display.
  - `text`, `number`, `bytes`: strings, numbers and vectors.
- `app/` is the program: sockets, devices, the event loop.
- `tests/` runs the library on descriptors that are only numbers.

## How the parts meet

An event is handed to a method of `ProxyState`. Where it takes writes or breaks, the method
returns a `Round`; `Round::step` names the next one, and the program hands its result back.
Descriptors that a port let go of are listed in the state and taken out with `take_effects`.
Each method says in its contract what the state is afterwards, as a function of the state
before and of the event.

Laws that span several operations are public proof functions beside the operations: that a
packet is recognised however it is cut into reads, that every console sees the line without the
packets, that nothing of a split line is lost, that a write loses no byte, that the debugger
outlives the console, that a lost device comes back as it was, that the status box is aligned,
and others.
