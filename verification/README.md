# touchbar

The logic of a Touch Bar desktop: a library of executable Rust whose behaviour
is stated in `requires` and `ensures` clauses and proved with Verus, and the
programs around it.

## The library

| module      | what it holds |
|-------------|---------------|
| `text`      | texts as sequences of characters; ordered sets and maps of them |
| `scan`      | numbers and lines in texts |
| `wire`      | the binary encoding that the broker messages share |
| `broker`    | the messages between sandboxed components and the broker |
| `component` | what a component submits to the broker, and what it reads back |
| `kit`       | the views that a component draws |
| `layout`    | where the items of a bar stand, and which of them are shown |
| `model`     | profiles, rules, leases and the bars that they select |
| `catalog`   | the catalog of plugins |
| `source`    | the identity of a package |
| `github`    | releases: which may be installed, and how one is published |
| `cli`       | what the commands of `touchbarctl` mean |
| `control`   | the messages on the control socket of the session |
| `client`    | when and what a plugin process draws |
| `demo`      | what the two showcases decide |

Contracts speak of mathematical models: a type has a view, and a function that
fails says in its `ensures` on which inputs it does, and with which error. The
public proof functions state what holds of several functions together: that a
decoded message is the encoded one, that the items of a bar stand side by side,
that among modes of equal priority the one activated last decides what is shown,
that a draft which could not be published is not forgotten.

Calls into other crates stand behind functions marked
`#[verifier::external_body]`. The comment above each says what is taken for
granted of the crate.

## The programs

`app/` holds what needs files, sockets, processes, the network, or a graphics
context: `touchbarctl`, and the two showcases. It asks the library what to do
and carries it out. It uses crates of the desktop itself (`touchbar-package`,
`touchbar-plugin-store`, `touchbar-policy`, `touchbar-protocol`, `touchbar-ui`)
and the Wayland libraries of the system.

## Tests

`tests/` runs the library, the functions that call other crates among it.
