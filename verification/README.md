# cosmic-ext-applet-sysmon

A compact system monitor applet for the COSMIC desktop panel: CPU usage, RAM,
GPU utilization / VRAM / temperature and network throughput on one line, with
a popup to toggle metrics, pick the network interface and set the refresh
interval.

The project is split in two:

- `src/` is the verified library (Verus). It holds the applet's decisions and
  text handling, each with a contract:
  - `applet` — the state machine: from the applet state and a message to the
    next state and the action to perform (refresh, persist, open/close popup);
  - `panel` — the panel line; `popup` — what the settings popup offers;
  - `format` — byte counts with binary units, rounded as `f64` printing does;
  - `network` — interface listing (sorted), auto-pick and counter selection;
  - `gpu` — GPU discovery from what NVML and `/sys/class/drm` report, uevent
    and sysfs parsing, the hwmon temperature scan and the aggregation of
    per-GPU readings;
  - `snapshot` — the integer figures of one refresh of every sensor, with the
    invariants every snapshot keeps;
  - `config` — the settings the logic reads; `text` — character helpers
    (decimal printing, `trim`, unsigned parsing, `lines`, `replace`, ordering).
- `app/` is the program around it: the COSMIC application, the sysinfo / NVML /
  sysfs reads, and the floating-point formatting (percentages, temperatures,
  rates, threshold colours).

`tests/` exercises the library on concrete values.
