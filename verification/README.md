# dsnitch

Egress inspection for Docker containers: which container talks to which host,
by name and by address, as it happens.

Probes in the kernel record outbound connections, closed sockets and DNS
packets. User space attributes each connection to the container of its control
group, names its address from the DNS answers that this group received, and
shows the result on a full screen or as a stream of lines.

`src/` is the library, verified with Verus:

| module         | what it states                                                        |
|----------------|-----------------------------------------------------------------------|
| `events`       | the records of the probes and their layout                            |
| `probe`        | what the probes on `connect` record                                   |
| `addr`         | internet addresses and their canonical text                           |
| `addr_laws`    | addresses have different texts                                        |
| `dns`          | what is learnt from DNS answers, per control group, and for how long  |
| `docker`       | the containers, how their control groups are found, and daemon events |
| `traffic`      | rows and keys of connections                                          |
| `ui`           | the feed, the container list, the filters and the keys                |
| `ui_laws`      | what holds of the feed, the list and the keys as a whole              |
| `render`       | what the screen shows                                                 |
| `stream`       | what the stream prints                                                |
| `session`      | from a record, or a drain of the ring buffers, to what is shown       |
| `session_laws` | sockets that open and close, whatever a drain holds                   |
| `order`        | the order in which the records of two ring buffers are taken          |
| `commands`     | the decisions of the command line                                     |
| `clock`        | points in time                                                        |
| `text`         | numerals, trimming, searching, ordering, padding, lines               |

Functions that depend on the time come in two forms: `f_at` takes the moment as
an argument and states its result exactly, `f` reads the clock.

`app/` is the program around it: the command line, the terminal, the Docker
socket, the ring buffers and the probes' access to the kernel.
