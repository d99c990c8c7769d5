# cached_tokens_merge

Prefiller cached tokens reporting for prefill/decode disaggregation, written and proved in Verus.

With prefix caching, cache hits happen on the prefiller, while the client gets the decoder's
response. This library reads the cached token count from the prefill response and writes it into the
decode response: a whole JSON body, or the usage chunk of a server-sent event stream.

| Module | Holds |
| --- | --- |
| `json` | the mathematical model of a JSON document |
| `outside` | the calls into `serde_json` and `bytes`, with what is claimed of them |
| `digits` | runs of digits, whose length limits what the JSON parser takes |
| `usage` | reading and writing the count in a document |
| `body` | writing it into a whole response body |
| `sse` | forwarding one line of an event stream |
| `lines` | splitting a byte stream into lines |
| `injector` | forwarding an event stream that arrives in pieces |
| `relay` | forwarding the items of a response stream, errors and the end of the stream among them |

Everything but `outside` is proved. Public proof functions named `law_..` state what holds of the
library as a whole: that an injected count is the one that is extracted, that nothing else changes,
that chunk boundaries do not matter, that lines stay lines.

`app` wraps an asynchronous stream around the relay.
