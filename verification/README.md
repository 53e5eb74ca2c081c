# integer

Emulation of a "wrong" prime field inside a "native" prime field with a
residue number system, as used by halo2 circuits: an integer of the wrong
field is held as four limbs of `BIT_LEN_LIMB` bits, each an element of the
native field, and every multiplication or reduction comes with the witness
values (quotient, intermediate values, residues) that the circuit
constraints check.

The library under `src/` is written in Verus and verified:

- `big`: arbitrary-precision naturals; the arithmetic itself is done by
  `num-bigint`, whose operations stand behind small trusted wrappers.
- `limbs`: splitting a number into limbs and putting limbs back together.
- `field`: native field operations on canonical representatives.
- `rns`: limbs, integers, multiplication and reduction witnesses,
  comparison with the modulus, inversion, division and the auxiliary values
  of subtraction.
- `construct`: building the system of a wrong and a native modulus with all
  its bounds and checks.
- `identities`: what one operation gives back of another: multiplication
  commutes, squaring is multiplying by itself, reducing a reduced result and
  inverting twice change nothing, elements of the wrong field keep their
  value in limbs, and the native value is the limbs weighted by the shifters.
- `arith`, `laws`: the modular arithmetic facts used, and the properties the
  library promises across its functions (exact witnesses, residues that
  always pass their sanity check when nothing wraps, the base auxiliary value
  being twice the wrong modulus, and more).

`app/` holds what stays with halo2 itself: the region context of a circuit
and the conversions between halo2 field elements and the library's numbers.
