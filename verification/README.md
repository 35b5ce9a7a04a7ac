# spatial-bench

Tag-addressed, library-agnostic benchmarking of spatial indexes.

A data point is identified by its tag map and nothing else. Subjects, the libraries
under test, are declared in manifests; a manifest's cases expand into the catalog; a
selector picks points of the catalog; a run builds each selected subject's driver,
measures, and writes a document whose header says on which machine, with which
toolchain and from which revisions it was made.

The library under `src/` holds what decides: the selector language, the catalog and
its loader, the picker and its menu, toolchain and source resolution, the step
machines that build C++ and Python environments, the run itself, machine hashes and
fingerprints, run documents and their paths, conformance, submission, charts, terminal
images and datasets. Its functions carry contracts that Verus proves. Laws that relate
several functions are public proof functions, most of them in the modules whose names
end in `_laws`.

Numbers with a fraction are kept as bit patterns and texts. What the machine's own
parser makes of a text is handed in as `tag::Floats`.

- `src/` — the verified library
- `tests/` — its tests
- `app/` — the programs around it: arguments, files, processes, drawing
