# llm-router

A router for requests to large language models. It listens on one port, understands
the request protocols of OpenAI (`/chat/completions`) and Anthropic (`/v1/messages`),
and sends each request to one of the backends that are configured for its model. A
backend that cannot be reached is tried again, a backend that fails is followed by the
next, and one that fails again and again is left alone for a while.

- `src/` is the library, verified with Verus: configuration, routes and aliases, load
  balancing, backend health, protocols, the rewriting of requests, and failover.
- `app/` is the program: files, environment, network.
- `tests/` runs the library on examples.

## Configuration

```toml
[service]
port = 8000
log_level = "info"

[service.default]
retry = 3
cooldown = "3min"

[backend]
local = "http://127.0.0.1:30000"

[backend.cloud]
base-url = "https://api.example.com"
api-key = "$CLOUD_KEY"
model = "large"

[load-balance.pool]
backends = ["local", "cloud"]
strategy = "round_robin"

[router]
model-a = ["pool", "cloud"]
alias-a = "model-a"
```

An `api-key` that begins with `$` names a variable of the environment. Cooldowns are
numbers of seconds (`s`), minutes (`min`) or hours (`h`). `GET /v1/models` lists the
routes.
