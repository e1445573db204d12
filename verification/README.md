# localsend-controller

A headless controller for LocalSend. It receives and sends files and texts, keeps track of the
transfers, and is driven through a management socket on which requests and responses are lines of
JSON.

The crate is a library in which every rule of the controller is stated and proved with Verus, and a
program around it.

- `src/` is the library. It does no input or output of its own.
  - `state` says what the state of the controller is and how everything that happens changes it;
    `controller` does it; `laws` proves what holds whatever happens.
  - `transfer`, `offer`, `filemap`, `devices` and `model` hold records of transfers, offers of peers
    and devices of the network.
  - `selection` walks through what is to be sent, `walk` says the same in one piece, and
    `destination` finds places for what is received, all of them or none (`acceptance`). They are driven step by step: the caller
    performs an action and hands back what came of it.
  - `outgoing` is the course of an outgoing transfer, driven in the same way.
  - `management` frames requests and responses; `client` turns commands into requests.
  - `identity` and `startup` hold the rules for keys, names, directories and the socket.
  - `text`, `textset`, `order`, `tally`, `paths`, `clock` and `ids` are what the others stand on.
- `app/` is the program: files, sockets, the network, the clipboard and JSON.
- `tests/` runs the library.
