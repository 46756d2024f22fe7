# eastmoney

A command-line client (`em`) for the A-share data services of eastmoney.com:
quotes, K-lines, intraday, fund flow, market overview, limit-up pools,
billboard, sectors, forum popularity ranks, announcements, news and the
logged-in watch list. Every command can print `--json`.

The library in `src/` holds the logic of the tool and is verified with Verus:

- `text` – character-level string helpers (trimming, splitting and joining,
  decimal formatting, integer parsing, UTF-8 byte positions).
- `json` – the JSON document the response readers work on.
- `secid` – resolving user input (codes, market prefixes, sector codes,
  secids) to a security, the popularity-rank and F10 codes of a secid.
- `api` – readers for each service's response, the request parameters that
  depend on the caller's choices, quote batching, request pacing, JSONP
  unwrapping and request ids.
- `cmd` – the choices the commands make from their options, watch-list group
  selection, billboard de-duplication, and the login cookie.
- `table` – display widths of CJK text and the aligned text table.
- `date` – Beijing-time dates from the clock and the civil calendar.

`app/` is the program around it: argument parsing, HTTP, the cookie file,
floating-point formatting and printing.
