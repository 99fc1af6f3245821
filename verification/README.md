# httprs

A small pre-forking HTTP/1.0 server, with its protocol logic verified in Verus.

- `src/` is the verified library:
  - `util::date` — the UTC calendar date of a moment (days counted from 1970-01-01 in the
    proleptic Gregorian calendar) and its RFC 1123 form;
  - `util::text` — decimal digits, comparison without regard to ASCII case, Unicode
    whitespace trimming, splitting;
  - `util::multimap` — names mapped to the list of their values;
  - `http::header` — header values and the header table of a response (fixed slots for
    the HTTP/1.0 headers, the others in the order first added, names compared without
    regard to ASCII case);
  - `http::response` — a response and the bytes it sends (gzip through flate2);
  - `http::http` — request targets and header fields, reading a request head line by
    line, the body left over from the head;
  - `http::value` — versions, methods, status codes;
  - `server::tcp` — the decisions of the echo process: what to write after each read,
    and the counts of bytes read and echoed;
  - `worker` — the worker trait and worker groups.
- `app/` is the program: command line, logging, sockets, signals, `fork`, and the loop
  that reads a request and writes the response.
- `tests/` runs the library.
