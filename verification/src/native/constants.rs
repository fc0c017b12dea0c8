//! Constants of the curve and of the tower.

use crate::math::curve::{ate_digits, coeff_b2, twist_q_x, twist_q_y};
use crate::math::field::modulus;
use crate::math::tower::{frob12_c1, frob6_c1, frob6_c2};
use crate::native::fq::FqValue;
use crate::native::tower::Fq2Value;
use vstd::prelude::*;

verus! {

/// The constant of the twist.
pub fn coeff_b2_value() -> (r: Fq2Value)
    ensures
        r@ == coeff_b2(),
        r.valid(),
{
    proof {
        reveal(modulus);
        reveal(<FqValue as View>::view);
    }
    Fq2Value {
        c0: FqValue {
            w0: 0x3267e6dc24a138e5,
            w1: 0xb5b4c5e559dbefa3,
            w2: 0x81be18991be06ac3,
            w3: 0x2b149d40ceb8aaae,
        },
        c1: FqValue {
            w0: 0xe4a2bd0685c315d2,
            w1: 0xa74fa084e52d1852,
            w2: 0xcd2cafadeed8fdf4,
            w3: 0x9713b03af0fed4,
        },
    }
}

/// The factor of the Frobenius map on the twist's abscissas.
pub fn twist_q_x_value() -> (r: Fq2Value)
    ensures
        r@ == twist_q_x(),
        r.valid(),
{
    proof {
        reveal(modulus);
        reveal(<FqValue as View>::view);
    }
    Fq2Value {
        c0: FqValue {
            w0: 0x99e39557176f553d,
            w1: 0xb78cc310c2c3330c,
            w2: 0x4c0bec3cf559b143,
            w3: 0x2fb347984f7911f7,
        },
        c1: FqValue {
            w0: 0x1665d51c640fcba2,
            w1: 0x32ae2a1d0b7c9dce,
            w2: 0x4ba4cc8bd75a0794,
            w3: 0x16c9e55061ebae20,
        },
    }
}

/// The factor of the Frobenius map on the twist's ordinates.
pub fn twist_q_y_value() -> (r: Fq2Value)
    ensures
        r@ == twist_q_y(),
        r.valid(),
{
    proof {
        reveal(modulus);
        reveal(<FqValue as View>::view);
    }
    Fq2Value {
        c0: FqValue {
            w0: 0xdc54014671a0135a,
            w1: 0xdbaae0eda9c95998,
            w2: 0xdc5ec698b6e2f9b9,
            w3: 0x63cf305489af5dc,
        },
        c1: FqValue {
            w0: 0x82d37f632623b0e3,
            w1: 0x21807dc98fa25bd2,
            w2: 0x704b5a7ec796f2b,
            w3: 0x7c03cbcac41049a,
        },
    }
}

/// The factors of the Frobenius map on the coefficients of `v`.
pub fn frob6_c1_value(k: usize) -> (r: Fq2Value)
    requires
        1 <= k <= 3,
    ensures
        r@ == frob6_c1(k as nat),
        r.valid(),
{
    proof {
        reveal(modulus);
        reveal(<FqValue as View>::view);
    }
    if k == 1 {
        Fq2Value {
            c0: FqValue {
                w0: 0x99e39557176f553d,
                w1: 0xb78cc310c2c3330c,
                w2: 0x4c0bec3cf559b143,
                w3: 0x2fb347984f7911f7,
            },
            c1: FqValue {
                w0: 0x1665d51c640fcba2,
                w1: 0x32ae2a1d0b7c9dce,
                w2: 0x4ba4cc8bd75a0794,
                w3: 0x16c9e55061ebae20,
            },
        }
    } else if k == 2 {
        Fq2Value {
            c0: FqValue {
                w0: 0xe4bd44e5607cfd48,
                w1: 0xc28f069fbb966e3d,
                w2: 0x5e6dd9e7e0acccb0,
                w3: 0x30644e72e131a029,
            },
            c1: FqValue { w0: 0x0, w1: 0x0, w2: 0x0, w3: 0x0 },
        }
    } else {
        Fq2Value {
            c0: FqValue {
                w0: 0x7b746ee87bdcfb6d,
                w1: 0x805ffd3d5d6942d3,
                w2: 0xbaff1c77959f25ac,
                w3: 0x856e078b755ef0a,
            },
            c1: FqValue {
                w0: 0x380cab2baaa586de,
                w1: 0xfdf31bf98ff2631,
                w2: 0xa9f30e6dec26094f,
                w3: 0x4f1de41b3d1766f,
            },
        }
    }
}

/// The factors of the Frobenius map on the coefficients of `v^2`.
pub fn frob6_c2_value(k: usize) -> (r: Fq2Value)
    requires
        1 <= k <= 3,
    ensures
        r@ == frob6_c2(k as nat),
        r.valid(),
{
    proof {
        reveal(modulus);
        reveal(<FqValue as View>::view);
    }
    if k == 1 {
        Fq2Value {
            c0: FqValue {
                w0: 0x848a1f55921ea762,
                w1: 0xd33365f7be94ec72,
                w2: 0x80f3c0b75a181e84,
                w3: 0x5b54f5e64eea801,
            },
            c1: FqValue {
                w0: 0xc13b4711cd2b8126,
                w1: 0x3685d2ea1bdec763,
                w2: 0x9f3a80b03b0b1c92,
                w3: 0x2c145edbe7fd8aee,
            },
        }
    } else if k == 2 {
        Fq2Value {
            c0: FqValue {
                w0: 0x5763473177fffffe,
                w1: 0xd4f263f1acdb5c4f,
                w2: 0x59e26bcea0d48bac,
                w3: 0x0,
            },
            c1: FqValue { w0: 0x0, w1: 0x0, w2: 0x0, w3: 0x0 },
        }
    } else {
        Fq2Value {
            c0: FqValue {
                w0: 0xe1a92bc3ccbf066,
                w1: 0xe633094575b06bcb,
                w2: 0x19bee0f7b5b2444e,
                w3: 0xbc58c6611c08dab,
            },
            c1: FqValue {
                w0: 0x5fe3ed9d730c239f,
                w1: 0xa44a9e08737f96e5,
                w2: 0xfeb0f6ef0cd21d04,
                w3: 0x23d5e999e1910a12,
            },
        }
    }
}

/// The factors of the Frobenius map on the coefficients of `w`.
pub fn frob12_c1_value(k: usize) -> (r: Fq2Value)
    requires
        1 <= k <= 3,
    ensures
        r@ == frob12_c1(k as nat),
        r.valid(),
{
    proof {
        reveal(modulus);
        reveal(<FqValue as View>::view);
    }
    if k == 1 {
        Fq2Value {
            c0: FqValue {
                w0: 0xd60b35dadcc9e470,
                w1: 0x5c521e08292f2176,
                w2: 0xe8b99fdd76e68b60,
                w3: 0x1284b71c2865a7df,
            },
            c1: FqValue {
                w0: 0xca5cf05f80f362ac,
                w1: 0x747992778eeec7e5,
                w2: 0xa6327cfe12150b8e,
                w3: 0x246996f3b4fae7e6,
            },
        }
    } else if k == 2 {
        Fq2Value {
            c0: FqValue {
                w0: 0xe4bd44e5607cfd49,
                w1: 0xc28f069fbb966e3d,
                w2: 0x5e6dd9e7e0acccb0,
                w3: 0x30644e72e131a029,
            },
            c1: FqValue { w0: 0x0, w1: 0x0, w2: 0x0, w3: 0x0 },
        }
    } else {
        Fq2Value {
            c0: FqValue {
                w0: 0xe86f7d391ed4a67f,
                w1: 0x894cb38dbe55d24a,
                w2: 0xefe9608cd0acaa90,
                w3: 0x19dc81cfcc82e4bb,
            },
            c1: FqValue {
                w0: 0x7694aa2bf4c0c101,
                w1: 0x7f03a5e397d439ec,
                w2: 0x6cbeee33576139d,
                w3: 0xabf8b60be77d73,
            },
        }
    }
}

/// The number of digits of the loop count.
pub const ATE_LOOP_LEN: usize = 65;

/// The signed binary digits of the loop count, lowest first.
pub fn ate_loop_count() -> (r: [i8; 65])
    ensures
        forall|i: int| 0 <= i < 65 ==> (#[trigger] r@[i]) as int == ate_digits()[i],
        ate_digits().len() == 65,
{
    reveal(ate_digits);
    [
        0, 0, 0, 1, 0, 1, 0, -1, 0, 0, -1, 0, 0, 0, 1, 0, 0, -1, 0, -1, 0, 0, 0, 1, 0, -1, 0, 0, 0,
        0, -1, 0, 0, 1, 0, -1, 0, 0, 1, 0, 0, 0, 0, 0, -1, 0, 0, -1, 0, 1, 0, -1, 0, 0, 0, -1, 0,
        -1, 0, 0, 0, 1, 0, 1, 1,
    ]
}

} // verus!
