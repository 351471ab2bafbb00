# open_conv

The control plane of a level-zoned convolution reverb, verified with Verus.

The engine convolves its input with up to four IRs ("zones"), each fed the
part of the input that falls in its level window. IR changes never swap
abruptly: in gated mode the new IR streams into the IR bank partition by
partition, with a per-partition write fade; in ungated mode the old IR
keeps ringing on the input it already heard while the new one hears only
the input from the change on.

`src/` holds what decides: block framing and latency (`framer`), the
per-zone IR banks, swaps, voices, retired-set queue and tail pool
(`engine`, `control`), geometry, the parameter table, the worker protocol
(`sync`), channel layout, the synthetic banks' noise source, and the laws
that tie the operations together (`laws`, and the `law_` functions of the
other modules).

`app/` is the offline renderer: WAV I/O (`hound`), the FFT convolution and
level detection (`realfft`, floating point), the synthetic bank shapes, and
the host-independent half of the plugin shell. It drives the verified
control plane for every decision.
