# browser

A client to query and control Chrome and Firefox tabs from the command line, and
the native-messaging host that it talks to.

```
browser (client)  --unix socket-->  native host  --stdio native messaging-->  extension
```

The library under `src/` holds the logic of both, verified with Verus:

- `text`: comparison, trimming, splitting, decimal numbers
- `json`: JSON values; `json::outside` holds every call into `serde_json` and what
  is believed of it
- `base64`: base64 and data URLs
- `socket`: where the host of each browser listens
- `args`, `command`: the command line, and what a command asks of the extension
- `protocol`: the lines and messages that client, host and extension exchange
- `frame`: native-messaging frames
- `relay`: which client waits on which reply
- `output`: what a command puts out

Public proof functions named `law_...` state what holds across functions.

`app/` is the program: arguments, sockets, files and threads. `tests/` runs the
library.
