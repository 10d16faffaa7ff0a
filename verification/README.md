# swoosh

swoosh reaches a machine by its public key instead of its address: it serves, sends files, forwards
ports, fetches through a node, and keeps the devices of one person under one root.

This crate holds the rules of the command, in Verus. What it prints, which invites it admits, which
routes a node binds, what an act does next: each is a function on plain values with a contract, and the
contract is proved. What touches a socket, a file, a clock or a key is not here.

## Layout

- `src/` the library.
  - `text`, `span`, `date`: how a line, a span of time and a day are written.
  - `badge`, `standing`, `dial`: what a machine is, and what it presents when it dials.
  - `serve`, `serving`, `routes`, `reach`: being a node, from its entries to its readiness banner.
  - `fetch`, `http`: the local URL whose requests leave at another node.
  - `send`, `connect`, `status`, `speed`: reaching a peer.
  - `invite`, `issue`, `join`, `leave`, `adopt`, `enrol`, `ledger`, `revoke`, `recut`, `fleet`: the
    devices of a root, how they come and how they go.
  - `contact`, `identity`: the address book, and this machine's key.
- `app/` the edges, in ordinary Rust: the command line, the listeners, the files and the terminal. Each
  module names what it needs of the overlay as a trait.
- `tests/` the library on concrete values.

## How an act runs

An invite, an enrolment, the pull of a fleet, a fetched request and a push of files are courses of stages.
The library takes a stage and an answer, and gives the next stage and the things to do; the edge does them
and brings the next answer. So the order of such an act, and every refusal in it, is in the library. A serve
is a list of steps that the library lays down.

A join, a leave and an adoption are decided at once, on what the edge has read. The library gives the first
reason against them, or what is done and in which order; the order in which the edge reads is its own.

## What is taken on trust

Six calls leave the library, and their contracts are believed: `String::push`, `String::from_utf8_lossy`
and `char::escape_debug` of the standard library, `httparse::Request::parse`, and `url::Url::parse` and
`url::Url::join`. Each stands behind one item that says what is claimed of it and what is not.
