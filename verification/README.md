# viontin

The core of the Viontin framework and its command line, as a library whose
behaviour is stated in contracts and proved with Verus.

- `src/` is the verified library: command-line parsing and the kernel's
  dispatch plan, output formatting, configuration and `.env` handling,
  authentication guards, JWT and CSRF checks, hexadecimal, XOR and AES
  encryption, caches and the Redis wire format, SQL text, domains and gems,
  the architecture checker, scaffolds, and the order in which service
  providers boot. Public functions state in `ensures` what they return;
  where a result comes from code that users supply (commands, guards,
  validators, gem hooks, cache drivers) or from the clock, the contract
  states what the library hands to that code and what holds of every
  answer. The laws of the library (round trips, read-after-write, provider
  order) are public proof functions beside the code they speak of.
- `app/` is the program around it: the file system, processes, the terminal,
  the network, signals and file watching, which Verus does not check.
- `tests/` runs the library on concrete values.
