# recorder

The verified core of a raw video processing pipeline for AXIOM cameras.
Frames flow through a graph of nodes (readers, decoders, converters, sinks);
this crate holds the logic of those nodes and of the graph, with contracts
proved by Verus.

## Layout

- `src/` — the library, all of it verified:
  - `frame`, `interpretation`, `cfa`, `dng` — frame descriptions, parameter
    parsing into them, Bayer patterns and the DNG tags written for them;
  - `image`, `bitdepth`, `average`, `row_noise` — unpacking of packed
    samples, bit depth conversion, the bookkeeping of frame averaging and
    the integer part of row noise removal (green difference medians);
  - `dual_frame`, `usb3`, `capture`, `frame_files`, `chunks` — the dual frame
    decoder and its reverse, USB3 stream alignment, webcam buffer slots, file
    naming and reading positions, buffer chunking;
  - `graph`, `puller`, `cache`, `task_queue`, `priority`, `node` — building a
    processing graph, pulling frames from it, caching, and task scheduling;
  - `options`, `cube`, `formatting`, `shader`, `gpu_nodes`, `text`, `error` —
    options, cube LUT headers, line numbering, generated shader code and small
    helpers.
- `tests/` — tests of the library on concrete values.
- `app/` — what stays outside the verifier: type-erased payloads, the async
  notifier, command line options, configuration files, the threads that run
  the pullers, the locking around the frame cache, the loop that feeds input
  frames to the dual frame decoder, and floating point arithmetic.
