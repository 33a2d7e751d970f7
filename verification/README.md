# qebbeq

A lifecycle manager for container images in a Kubernetes cluster. It watches which images of a
registry the workloads of the cluster refer to, keeps an `Image` resource for each of them, has
referenced images copied from the upstream repositories that `ImageMirror` resources name, and
lets go of an image when nothing has referred to it for a while.

## Layout

`src/` is the library. Everything that the controller decides is decided there, in functions whose
contracts Verus proves. What the proofs rest on is the contracts of a few outside functions, which
are believed: SHA-256 and hexadecimal encoding (`naming`), the clock and the difference of two
times (`time`), and two methods of the standard library (`text`). Their doc comments say what is
claimed of each.

* `text`, `sorted`, `time`: strings, ordered sets and maps, points in time
* `reference`, `naming`: image references and the names of `Image` resources
* `resources`: the `Image` and `ImageMirror` resources, their conditions and finalizers
* `workload`, `index`: the images that pods refer to, in both directions
* `controller`: what follows from a change in the cluster
* `reconcile`: what is done about one image
* `mirroring`, `copying`: what is copied from where, and the attempt to do so
* `polling`: which mirrors are polled
* `config`, `watch`: settings, and what a watch delivers

The long-running parts are state machines: a step takes what has happened and tells what is to be
done. Functions that read the clock stand beside ones that take the time as an argument.

`app/` is the program. It talks to the cluster, runs `crane`, and carries out what the library
tells it to.

`tests/` runs the library on concrete values.
