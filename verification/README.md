# garbled-snark-verifier

Verification of Groth16 proofs over BN254 as a circuit, and the protocol by
which a garbler commits to many garbled copies, opens most of them and solders
the rest together. The library is written in Verus: every function in `src/` is
verified against its contract.

The wires of the circuit are Boolean, and so are some of its gates. Operations of
the base field on words of wires are gates of `CircuitContext` of their own, with
the value that each gives: how they are broken down into Boolean gates stands
outside the library, as does what garbles the circuit gate by gate.

## Layout

- `src/math/`: the models. The prime field, the tower over it, the curve, its
  twist and the pairing, with the laws that hold of them: that the modulus is a
  prime, what roots and inverses there are, that the formulas of the points are
  the addition by chords and tangents, and what the pairing makes of products.
- `src/native/`: field elements and points as values, computed by `ark-bn254`.
- `src/circuit.rs`, `src/bits.rs`: wires, the values that they carry, and words
  of bits.
- `src/gadgets/`: arithmetic on wires up to the pairing, and the verification of
  a proof, compressed or not.
- `src/label.rs`, `src/hashers/`: labels, the hashes of gates and those that
  commit to labels.
- `src/cut_and_choose/`: commitments, openings, the choice of lanes and cores,
  and the garbler's stages.
- `src/soldering.rs`, `src/program.rs`: the differences that lead from one
  instance's labels to the others', and the program that makes them, from the
  bytes of its input to those of its output.
- `app/`: threads, files, channels, random numbers and serialisation around the
  library.
- `tests/`: tests against the arkworks crates.

## What is trusted

Calls into `ark-bn254`, `ark-ec`, `ark-ff`, `bincode`, `blake3`, `sha2` and
`aes` stand in functions of their own whose contracts are not proved. Each says in
its comment which call it makes and what is claimed of it.
