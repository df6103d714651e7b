# frost-core

Two groups of signers, each of them a t-of-n FROST group with identifiers of its
own, sign one message together under one key. The library is generic in the
ciphersuite and verified with Verus: every executable function states in its
`ensures` exactly what it returns.

| Module | Contents |
| --- | --- |
| `two_group` | the signing package, signing and aggregation |
| `scheme` | what `two_group` computes, as specification functions |
| `laws` | what holds of every run: tags, order, binding of inputs, blame |
| `honest` | what signers that follow the scheme achieve: their signature verifies |
| `interpolation`, `lagrange` | Lagrange coefficients and the theorem behind them |
| `group`, `ciphersuite` | the traits that a ciphersuite implements |
| `residues` | a verified ciphersuite over the residues modulo 31, for worked examples |
| `identifier`, `map`, `keys`, `round1`, `round2`, `signature`, `error` | the data of the scheme |
| `residue`, `scalar_mul` | arithmetic |

Scalars are modelled by their values and group elements by their exponents, both
modulo the order of the group. A ciphersuite that is not written in Verus, such as
the one over secp256k1 in `tests/two_group_tests.rs`, has to meet the contracts of
the traits by itself: nothing checks it against them.
