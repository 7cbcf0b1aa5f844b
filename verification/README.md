# scvx-solver

A successive-convexification solver for three-degree-of-freedom powered descent,
verified with Verus.

Given an initial state and a soft-landing target, the outer loop linearizes the
vehicle's dynamics about a reference trajectory, assembles a second-order cone
program, solves it by an interior-point method, and accepts or refuses the candidate
by a trust-region ratio, until the virtual control vanishes. The interior-point
drivers use the block-tridiagonal structure of the optimality system, so that one
iteration costs time linear in the number of nodes.

## Numbers

All code is generic over a scalar type, and contracts name the exact sequence of
operations on that type. They ask that the type's operators be total and do what their
specifications say (`total`, `real_ops`). A type whose operators are verified can prove
that. For `f64` nothing does: there it is the caller's word, and with it the contracts
describe floating-point results as they are, rounding included.

The laws on what a computation achieves take a hypothesis on the arithmetic, and say
which. `field` and `ordered_field` are exact arithmetic and false of floating-point
numbers. `ordered`, `order_kept`, `poisonous`, `roots_tame` and `plain_numbers` are
written to hold of them: a total order on everything but a not-a-number, arithmetic that
does not make one out of finite values, infinities and not-a-numbers that stay what they
are, and zeros and ones that compute exactly.

## Memory

Vectors and matrices are `Vec`s whose sizes are given at run time. The solver allocates
from the heap, needs `std`, and makes no promise of static memory.

Square roots, logarithms, powers and matrix inverses come in through `Numerics`, the
cone routines through `ConeOps`, dynamics and dense drivers through `Plant`. Nothing is
promised about what these return beyond sizes and repeatability, and every function
that needs either says so.

## Modules

| module | what it holds |
|--------|---------------|
| `scalar`, `numerics`, `linalg`, `types`, `layout` | numbers, vectors and matrices, the problem's types, sizes and positions |
| `assemble` | the cone programs |
| `precondition` | scales of unknowns and cones |
| `stage_blocks`, `reduced_kkt`, `reduced_kkt_free_tf`, `kkt_backend` | the structured optimality system, with fixed and free final time |
| `cones` | block-diagonal scalings, steps and starting points of the cone product |
| `structured_socp`, `structured_hsd` | the interior-point drivers: symmetric and Nesterov-Todd directions, and the self-dual embedding |
| `trust`, `merit`, `scvx` | trust-region rules, merit sums, the outer loop |
| `api` | one-call powered descent |

The laws stand beside them: `algebra` has the field lemmas, `kkt_laws`,
`free_tf_laws` and `dense_laws` show that a structured solve solves the whole system,
`newton_laws` and `embedding_laws` that the directions are Newton steps,
`agreement_laws` that the drivers, the self-dual ones too, agree with dense ones,
`start_laws` that starting points lie inside their cones, `assembly_laws` what the assembled rows mean, `precondition_laws` what scaling leaves
alone, `scaling_laws` that cone scalings stay within their cones, `solver_laws` what an
inner status means, `scvx_laws` what every run of the outer loop keeps, and
`repeat_laws` that the same input leads to the same result.

`app/` is the double-precision front end: number routines, usual settings, a guarded
entry point and a printed report.
