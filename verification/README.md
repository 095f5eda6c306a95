# kauthgate

An authentication and authorization gateway for gRPC and HTTP backends. A
request is let through when a configured rule matches it and, for requests
with a bearer token, when the token authenticates and an authorization query
on the rule's resource attributes allows it.

## Layout

- `src/` is the verified library (Verus): rule matching for gRPC and HTTP,
  variable capture from headers, query parameters and path segments, the
  resolution of resource attributes, the configuration's rule lists, and the
  decision steps taken around token authentication and the authorization
  query. Every public function states its result in its `ensures`; the laws
  that tie several of them together are public proof functions.
- `app/` is the program around it: command line, configuration file loading,
  the pingora proxies, metrics, and the loop that awaits the authentication
  backend between the library's decision steps.
- `tests/` runs the library on concrete requests and configurations.

## Request variables

The variables that a match captures are held in `ConfigVariables`, a vector of
name/value pairs whose names are kept distinct, viewed as a
`Map<Seq<char>, Seq<char>>`. A `std::collections::HashMap` keyed by `String`
is not used: vstd's contracts for `HashMap` hold only for key types known to
obey its key model (`obeys_key_model`, given for the integer types and
`bool`), `String` is not among them, and granting it would take an
assumption. A map built on it could not carry the exact contracts that the
matching functions state over the captured variables.
