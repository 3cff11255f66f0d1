# rsmb

Adds optical-flow motion blur to video files, in the manner of a film camera
whose shutter stays open for part of the frame interval. Motion is estimated by
pyramidal Lucas-Kanade on the host or on a graphics device; decoding and
encoding are left to ffmpeg.

    rsmb-rs input.mp4 -o blurred.mp4 [--shutter 180] [--samples 16] [--window 7]
        [--iters 5] [--levels 0] [--flow-cache] [--gpu] [--crf 18]
        [--preset medium] [--ffmpeg ffmpeg]

## Layout

* `src/` is the library. It is written in Verus: every function has a contract,
  and the contracts are proved. It holds the image passes, the order of work on
  the device, the course of a video from frame to frame, the reading of probe
  reports and the command lines of the child processes.
* `app/` is the program: arguments, threads, child processes, the device driver
  with its shaders, and floating point.
* `tests/` runs the library.

## What is proved

The passes are stated over an abstract arithmetic. Which samples are combined
with which, in which order, and with which formula is proved; how a float is
rounded is not. Where the arithmetic is exact, further laws hold: the box filter
sums its window, the update solves the normal equations, a sample hits its cell
and stops at the border, the exposure is even about the current frame and makes
up no colours. Where the arithmetic has one outcome, so has every frame, however
its work was spread: iterations add up, more levels never change the finer ones,
and settings and positions out of range act as the nearest ones. That a sample
hits its cell takes no more than exact whole numbers, which floats have.

On the device, every recorded command is shown to be in order: no kernel reads a
buffer that was given back or writes one that is bound to it twice, nothing is
left behind from frame to frame, and all that ever comes back is the blurred
image. The commands that are handed over are tied to all of this: they are the
ones that were recorded, in order, and they lead from the device as it was to
the device as it is.
A pyramid and a level of motion estimation take one submission each, and the
number for a whole frame is stated. What each buffer holds is stated as an
expression over kernels and images; what a kernel computes is up to its shader.

Frames go out in the order in which they came in, each exactly once, and each is
compared with the right neighbours.

Trusted without proof are the join and the parallel map of `rayon` (`parallel`)
and two casts of `bytemuck` (`pixels`).
