# signal_profiles

A verified library for what surrounds a Signal profile: the padding and encryption
of its fields, the links that carry secrets in their fragment, and the decisions
around the requests that fetch and change profiles, usernames and profile key
credentials.

- `src/` is the library, verified with Verus.
  - `profile_cipher`, `padding`, `profile_name`, `payment_address`: the fields of a
    profile, encrypted and decrypted.
  - `groups_v2::invite_link`: `https://signal.group/#...` links.
  - `groups_v2::credentials`: the profile key credential flow and its cache.
  - `websocket::profile`, `websocket::usernames`: requests, each as the steps that
    its answers lead to.
  - `base64url`, `hexadecimal`, `wire`, `text`, `link_url`, `uuid_bytes`,
    `aes_gcm_256`, `random`: encodings and the calls into other crates.
- `tests/` runs the library, with the other crates linked.
- `app/` sends the requests and makes the calls that need the network, `zkgroup`,
  `usernames` or the Signal protocol.

What other crates do is stated at the functions marked `external_body`, next to
the call; everything else is proved from there.
