# title_verifier

A registry of titles, and a constraint system with which the owner of a registered
title proves that it is theirs, unencumbered and validly licensed, without showing
which title it is.

- `src/` is the library. Every function in it has a contract that Verus proves, and
  the properties that relate several functions are public proof functions whose
  names begin with `law_`.
- `app/` is ordinary Rust around the library: the canister's entry points, the
  prover and verifier behind the traits of `winterfell`, and the command line.
- `tests/` runs the library, also under the real prover and verifier.

## The statement

With the public inputs registry, root, purpose, nonce, time and nullifier, the owner
knows a secret and a property such that

1. the owner commitment is the hash of the secret and the property;
2. the leaf of registry, commitment, no encumbrance, a valid license and its expiry
   lies in the registry's tree of depth 25 under the root;
3. the license expires after the time, by at most `2^32` seconds;
4. the nullifier is the hash of secret, property, purpose and nonce.

`build_trace` gives a trace that satisfies all 49 constraints and 39 assertions; that
every owner's trace does is `law_honest_trace_satisfies_the_system`. `law_satisfying_trace_shows_the_statement` shows the
converse: where all constraints vanish in all 256 rows, the first row being next to
the last, and all assertions hold, the statement holds. The converse rests on the
field's modulus being prime, which `law_modulus_is_prime` shows.

## The registry

Administrators submit records; anyone may ask for a challenge, and only they may
answer it, once, before it expires. An accepted answer spends its nullifier, which is
a number: written in another way it is spent as well. `promises` holds what the
registry keeps across its operations, `snapshot` what it keeps across an upgrade, and
`history` what it keeps over its whole life, such as that no number or nonce of a
challenge is used twice.
