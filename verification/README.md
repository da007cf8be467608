# orda

A fused cross-entropy and forward-KL loss for knowledge distillation, verified with Verus.

For a student and a teacher over one batch the library computes

    w_s * CE(student) + w_t * CE(teacher) + kd * KL(teacher || student) * T^2

and its gradients with respect to the hidden states and the projection weights. The batch is
cut into chunks of rows. Within a chunk the KL kernel reads the student's and the teacher's
logits from one buffer, and the cross-entropy kernel reads either on its own. Sums are carried
on from chunk to chunk, row by row, and the mean over the tokens is applied once, at the end,
so the result is the same however the batch is cut.

## Layout

- `src/`: the library. Every function states in its contract what it returns, down to the
  order of the operations.
  - `arith`: the operations on numbers; `fixed`: a fixed-point implementation of them.
  - `config`, `options`, `teacher`: inputs, presets, errors.
  - `resolver`: chunk plans and the retry schedule.
  - `mat`, `reference`, `quant`: matrices, the two kernels, INT8 compression of gradients.
  - `objective`: what the loss and its gradients are.
  - `api`, `forward`: the loss with its gradients; the value alone, in wide numbers.
  - `tiles`, `launch`: the kernels as an accelerator runs them, in tiles of the vocabulary.
  - `laws`: what holds of the loss as a whole.
- `tests/`: tests on hardware floating point and on fixed point, among them gradient checks
  by finite differences.
- `app/`: a demonstration program, the floating-point implementation of the arithmetic, the
  texts of the errors, and the kernels for an NVIDIA GPU.

## Arithmetic

The library is generic over `Arith`, a pair of number types with their operations. All that
it asks is that an operation is a function of its operands. Of the fixed point in `src/` this
is proved; of hardware floating point, which the tests and the program use, it is taken for
granted (the last bits of `exp` and `ln`, and those of a NaN, are left open there).

Some facts hold of any arithmetic, such as that the result does not depend on the chunks.
Others need sums or products that are not rounded, and are stated for arithmetic that has
them, or in fixed point with a bound on the rounding. Facts about real numbers that rounding
breaks altogether (that a gradient is the derivative of the loss, that a KL is not negative)
are checked by tests, within tolerances.

## Accelerator

The kernels in `app/cuda` need an NVIDIA GPU (`sm_80` or later), a CUDA 13.3 toolkit and the
`cutile` and `cuda-core` crates, and are compiled with the feature `cuda`. The library
itself computes on the CPU: `Backend::Auto` and `Backend::Cpu` are the same, and
`Backend::Cuda` is refused.
