//! Small circuits to make proofs of.

use vstd::prelude::*;

verus! {

/// What a variable of a small circuit is assigned.
#[derive(Clone, Copy, Debug, PartialEq, Eq, Structural)]
pub enum Assigned {
    A,
    B,
    /// The product of both.
    Product,
}

/// One step in the synthesis of a small circuit.
#[derive(Clone, Copy, Debug, PartialEq, Eq, Structural)]
pub enum SynthesisStep {
    /// A private variable.
    Witness(Assigned),
    /// A public variable.
    Input(Assigned),
    /// The first variable times the second is the third.
    ConstrainProduct,
    /// Zero times zero is zero.
    ConstrainZero,
}

/// A small circuit with one public input.
#[derive(Clone, Copy)]
pub struct DummyCircuit<F> {
    pub a: Option<F>,
    pub b: Option<F>,
    pub num_variables: usize,
    pub num_constraints: usize,
}

/// A small circuit without public inputs.
#[derive(Clone, Copy)]
pub struct DummyCircuitNoPublicInputs<F> {
    pub a: Option<F>,
    pub b: Option<F>,
    pub num_variables: usize,
    pub num_constraints: usize,
}

/// The steps of a small circuit: both factors and their product, copies of the
/// first factor up to the number of variables, and constraints up to their
/// number, the last one being trivial.
pub open spec fn synthesis(third: SynthesisStep, variables: nat, constraints: nat) -> Seq<
    SynthesisStep,
> {
    seq![
        SynthesisStep::Witness(Assigned::A),
        SynthesisStep::Witness(Assigned::B),
        third,
    ] + Seq::new((variables - 3) as nat, |i: int| SynthesisStep::Witness(Assigned::A)) + Seq::new(
        (constraints - 1) as nat,
        |i: int| SynthesisStep::ConstrainProduct,
    ) + seq![SynthesisStep::ConstrainZero]
}

fn synthesis_steps(third: SynthesisStep, variables: usize, constraints: usize) -> (r: Vec<
    SynthesisStep,
>)
    requires
        variables >= 3,
        constraints >= 1,
    ensures
        r@ == synthesis(third, variables as nat, constraints as nat),
{
    let mut r: Vec<SynthesisStep> = Vec::new();
    r.push(SynthesisStep::Witness(Assigned::A));
    r.push(SynthesisStep::Witness(Assigned::B));
    r.push(third);
    let ghost head = r@;
    let mut i: usize = 0;
    while i < variables - 3
        invariant
            variables >= 3,
            i <= variables - 3,
            r@ =~= head + Seq::new(i as nat, |j: int| SynthesisStep::Witness(Assigned::A)),
        decreases variables - 3 - i,
    {
        r.push(SynthesisStep::Witness(Assigned::A));
        i = i + 1;
    }
    let ghost vars = r@;
    let mut j: usize = 0;
    while j < constraints - 1
        invariant
            constraints >= 1,
            j <= constraints - 1,
            r@ =~= vars + Seq::new(j as nat, |k: int| SynthesisStep::ConstrainProduct),
        decreases constraints - 1 - j,
    {
        r.push(SynthesisStep::ConstrainProduct);
        j = j + 1;
    }
    r.push(SynthesisStep::ConstrainZero);
    assert(r@ =~= synthesis(third, variables as nat, constraints as nat));
    r
}

impl<F> DummyCircuit<F> {
    /// The steps of the circuit's synthesis. The product is public.
    pub fn steps(&self) -> (r: Vec<SynthesisStep>)
        requires
            self.num_variables >= 3,
            self.num_constraints >= 1,
        ensures
            r@ == synthesis(
                SynthesisStep::Input(Assigned::Product),
                self.num_variables as nat,
                self.num_constraints as nat,
            ),
    {
        synthesis_steps(
            SynthesisStep::Input(Assigned::Product),
            self.num_variables,
            self.num_constraints,
        )
    }
}

impl<F> DummyCircuitNoPublicInputs<F> {
    /// The steps of the circuit's synthesis. All variables are private.
    pub fn steps(&self) -> (r: Vec<SynthesisStep>)
        requires
            self.num_variables >= 3,
            self.num_constraints >= 1,
        ensures
            r@ == synthesis(
                SynthesisStep::Witness(Assigned::Product),
                self.num_variables as nat,
                self.num_constraints as nat,
            ),
    {
        synthesis_steps(
            SynthesisStep::Witness(Assigned::Product),
            self.num_variables,
            self.num_constraints,
        )
    }
}

/// The steps one by one: there are as many variables and constraints as asked for,
/// the first and all further variables but the second and third are the first
/// factor, and all constraints but the last are products.
pub proof fn lemma_synthesis(third: SynthesisStep, variables: nat, constraints: nat, i: int)
    requires
        variables >= 3,
        constraints >= 1,
        0 <= i < variables + constraints,
    ensures
        synthesis(third, variables, constraints).len() == variables + constraints,
        synthesis(third, variables, constraints)[i] == (if i == 1 {
            SynthesisStep::Witness(Assigned::B)
        } else if i == 2 {
            third
        } else if i < variables {
            SynthesisStep::Witness(Assigned::A)
        } else if i < variables + constraints - 1 {
            SynthesisStep::ConstrainProduct
        } else {
            SynthesisStep::ConstrainZero
        }),
{
}

} // verus!
