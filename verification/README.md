# Load balancer

An HTTP load balancer whose decisions are verified with Verus.

- Requests go, round robin, to backends that are healthy and enabled.
- A health checker asks every backend from time to time whether it is well. Failed
  requests count as well: three in a row take a backend down.
- Connections to backends are pooled.
- Requests with idempotent methods are sent again when a backend fails them, as long
  as their bodies fit in memory.
- A retry budget keeps retries a bounded share of the requests.

`src/` is the library. It holds the state and the decisions, and performs no I/O:

| module         | what it decides                                                    |
|----------------|--------------------------------------------------------------------|
| `backend`      | what is recorded of a backend                                      |
| `balancer`     | whether a request is let in, and whose turn it is                  |
| `body`         | how much of a request body is kept, and how often it can be sent   |
| `exchange`     | where a request goes next, and what the client is told in the end  |
| `health`       | what a health check asks, and what its result changes              |
| `http`         | methods, statuses and error responses                              |
| `octets`       | the byte buffers of `hyper`                                        |
| `pool`         | which connections are kept and which one is reused                 |
| `retry_budget` | whether a retry can be paid for                                    |

Proof functions whose names begin with `law_` state what holds of the library as a
whole.

`app/` is the program around it: it listens, connects, sends, and keeps the time.
