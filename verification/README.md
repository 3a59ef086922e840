# ostrail

Give `ostrail` a request ID or a resource UUID; it finds the hosts of an
OpenStack cloud, pulls their systemd journals over SSH, and prints every
matching line from every service as one chronological, colour-coded
timeline.

Layout:

- `src/` is the verified library (Verus): credential discovery (`auth`),
  Keystone's service catalog and URLs (`catalog`), host list merging
  (`hosts`), journal line parsing and ANSI stripping (`journal`, `json`),
  the remote command and the handling of its output (`remote`), the merged
  timeline (`timeline`), the rendering of lines and options (`display`),
  and character-level helpers (`text`).
- `app/` is the command itself: argument parsing, environment and file
  reading, HTTP calls to Keystone, Nova and Neutron, SSH, threads and
  printing.
- `tests/` runs the library on concrete inputs.
