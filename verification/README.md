# umf-builder

Builds container images and bootable images from parsed UMF recipes.

The library (`src/`) holds the rules of the builder as executable Rust with
contracts that Verus proves. It reads and writes nothing itself: it plans,
decides and computes, and is told what was found.

- `engine_build` plans a container build stage by stage: what is fetched and
  pulled, what each directive does to the image, the keys of the step cache, and
  when a layer from the cache may take the place of a step.
- `bootable` carries a bootable build from the kernel to the emitted image, one
  action at a time.
- `initrd` makes the initramfs: the modules that it carries, its init script and
  the CPIO archive.
- `vm_runner` sets up the micro-VM of a `RUN` and reads its outcome;
  `runtime_config` and `runtime_writer` give a bootable image its firewall.
- `resolver`, `introspect`, `manifest` and `platform` find images and tell what
  they are.
- `host_requirements`, `metrics` and `bench` look at the host and at how long a
  build took.
- `text`, `number`, `path`, `order`, `text_map`, `json`, `digest` and `reference`
  are what the rest is written with.

What is believed without proof are the outside functions behind a few wrappers:
SHA-256 and hexadecimal digests, gzip, JSON, OCI manifests and references, and
URLs. Each wrapper says in its comment what it claims.

`app/` is the ordinary Rust around the library: files, processes, the network,
the clock, `tracing`, and the traits behind which the image layout, the
registries, the container runtime and the virtual machines stand. `tests/` runs
the library on given values.
