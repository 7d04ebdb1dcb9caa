# nibble_torrent_client_hurricaneport

A client for a small torrent network: it announces itself to a tracker
over HTTP, downloads a file's chunks from the peers the tracker names,
checks each chunk against its SHA-1 hash, and serves the chunks it holds
to other peers.

- `src/` is the library, verified with Verus: the HTTP request and the
  reading of the tracker's response, the peer messages (availability
  bitfields, chunk requests and replies, message framing), the peer
  manager's decisions, and the torrent's tracker URL and reply handling.
- `app/` is the program around it: command line, sockets, files, tasks and
  the JSON forms of the library's types.

Peer messages are framed as one type byte, the payload length as a
big-endian `u32`, and the payload. This framing is this project's own
choice: the message types and payloads are those of the peer protocol, but
the way messages are delimited on the connection is defined here.
