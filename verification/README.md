# mcpstead

An MCP gateway: one downstream `/mcp` endpoint that fronts many upstream MCP servers. The logic is a
verified library; a thin program around it does the I/O.

## Layout

- `src/` is the library, verified with Verus.
  - `text`, `table`, `json`: texts, maps walked in the order of their names, JSON values
  - `config`: the configuration, its defaults and its validation
  - `http`, `rpc`: replies to clients, JSON-RPC messages
  - `auth`: who may talk to the gateway
  - `tools`, `message`: the tools that are offered, and what a message asks for
  - `downstream`, `post`: how a client's request is answered, one message after another
  - `sse`, `normalize`: how answers of upstream servers are read
  - `upstream`, `manager`: how upstream servers are asked and kept connected
  - `state`, `metrics`, `health`, `page`: what the gateway keeps and shows
  - `reload`: how a changed configuration takes effect
  - `life`: what stays as it is over everything that happens between two reloads
- `app/` is the program: command line, HTTP server and client, tasks, configuration file.
- `tests/` run the library.

## How the library meets the world

Work that alternates with I/O is cut into steps. A request of a client is a `Post`: `start_post` lets
it in, `advance` takes it a step further and says whether to go on, to call a tool or to reply. A
server is kept connected by a `Manager`, whose `Round`s say what to send next and take what came
back. A reload is a list of steps. Time is nanoseconds on the gateway's own clock.

Proof functions whose names begin with `law_` state what holds of several functions together: that a
qualified tool name leads back to its server and tool, that every request is answered under its own
`id`, that a client is told of a session exactly if it keeps it, that a server is not tried again
once it has failed as often in a row as its configuration allows, that a token is the one that was
held when the configuration took effect, that a reload leaves exactly the servers of the new
configuration.
