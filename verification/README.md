# rums

Sends one request to many servers over TCP and collects their answers, and
routes requests on the server side by a chain of route names written in front
of them (`add_route` / `get_route`). A code generator turns protobuf service
descriptions into client and server glue for the library.

- `src/` is the verified library: the route framing and its inverse, the
  route handler tree and its dispatch, the bookkeeping of which connections
  have answered, the progress of a connection's write and read, the decoding
  of poll tokens, and the code generator. Its contracts are checked by Verus.
- `app/` holds what talks to sockets and threads (`mio` polling, TCP
  connections, the serving loop) and the `prost_build` hook; it takes its
  decisions from the library.
- `tests/` exercises the library on concrete values.
