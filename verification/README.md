# docker-dns

A small DNS server that resolves queries under a root domain to the addresses
of Docker containers, with its decisions verified in Verus. With
`ROOT_DOMAIN=xxx.yy`, a query for `weft.xxx.yy` is stripped to the container
name `weft` and answered with the container's addresses; an SRV query for
`_http._tcp.weft.xxx.yy` is answered with a port and the name `weft.xxx.yy`.

## Layout

- `src/` is the verified library. It decides everything and touches nothing:
  - `text`, `addr`, `order`: text, addresses and their text, sorting
  - `name`: the SRV prefix and the container name in a query name
  - `labels`, `container`: container labels and the choice of an SRV port
  - `index`: the index of running containers and the lookup by name
  - `docker`: the cache of that index
  - `resolve`: Docker first, the fallback DNS server second
  - `dns`, `message`: names, headers, records, requests and replies
  - `handler`: what a request is answered with
  - `config`: the configuration from the environment
  - `laws`: what holds of the server as a whole
- `app/` is the server around it: environment, sockets, the Docker API, the
  fallback resolver, logging.
- `tests/` run the library on concrete values.

## What is taken on trust

IPv6 addresses and names are read and written by `hickory-proto`. The
functions that call it carry contracts that are not proved here: `parse_ipv6`
in `addr`, `name_text` and `name_from_ascii` in `dns`. Of the standard library,
`String::push` and `Arc::clone` are described in `text` and `labels`.

## Configuration

| Variable            | Default      | Meaning                                                                 |
| ------------------- | ------------ | ----------------------------------------------------------------------- |
| `ROOT_DOMAIN`       | required     | Root domain stripped from incoming queries                              |
| `LISTEN_ADDR`       | `0.0.0.0:53` | Listen address for UDP and TCP                                          |
| `TTL`               | `30`         | TTL of answer records in seconds                                        |
| `DOCKER_NETWORK`    | none         | If the container is attached to this network, only its IPs are returned |
| `FALLBACK_DNS`      | none         | Fallback DNS server                                                     |
| `DOCKER_CACHE_SECS` | `2`          | How long the container list is cached                                   |
| `DOCKER_HOST`       | local socket | Honored by the Docker client                                            |
| `RUST_LOG`          | `info`       | Log level                                                               |
