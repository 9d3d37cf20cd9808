# mavlink-camera-manager (verified core)

The decision and data-handling logic of a camera manager for MAVLink
vehicles, written in Verus: every function in `src/` carries a contract that
the verifier proves, and the properties the library promises across calls
are stated as proof functions named `law_*`.

## Layout

- `src/` — the verified library.
  - `text`, `thread_stat` — character-level helpers and the parser of
    `/proc/self/task/{tid}/stat` records, with a ledger of per-thread CPU
    ticks.
  - `video_types`, `caps`, `device_formats`, `sensor_modes`,
    `libcamera_modes`, `sorted_sets` — video formats, sizes and frame
    intervals: reading device capabilities, completing libcamera sensor
    modes, and the ordered, duplicate-free lists they are reported in.
  - `controls`, `v4l_controls`, `pending`, `libcamera_controls` — camera
    controls: validation of writes, V4L2 control descriptions, and the
    pending values that libcamera applies on the next start.
  - `element_probe`, `pipeline_stats`, `pts_match`, `stream_health`,
    `pipeline_structure`, `pipeline_topology` — pipeline statistics: per-pad
    buffer rings, PTS matching of buffers across links and elements, health
    aggregation, the element tree and the links between pipelines.
  - `stream_types`, `sources`, `messages`, `settings`, `settings_file` —
    stream configurations and the settings they are stored in.
  - `mavlink_params`, `mavlink_camera` — the MAVLink camera component: its
    component ids, heartbeat schedule, answers to ground-station messages and
    the encoding of controls as parameters.
- `tests/` — tests of the library on concrete values.
- `app/` — the program around it: command line, settings file (JSON through
  serde), `/proc` reading and the floating-point CPU percentages.
