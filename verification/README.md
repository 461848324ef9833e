# shapeme

Approximates an image with a few hundred translucent shapes (triangles,
circles, polygons) or with a deformable quad mesh, by simulated annealing and
recombination of candidate solutions, and writes the result as SVG.

- `src/` is the verified library: genes and genomes with their normalisation,
  mutation and recombination, the cost and data-URL size budgets, the
  integer geometry of rasterisation, the downscaling of the target image, and
  SVG text.  Colours and blur radii are
  type parameters; the floating-point operations on them are passed in.
- `tests/` exercises the library on concrete values.
- `app/` is the command-line program: files, checkpoints, the SDL window,
  worker threads, and the floating-point colour conversion, rendering,
  blurring, fitness and annealing temperature.
