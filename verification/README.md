# Ghaf Device Manager

A daemon that assigns the USB and PCI devices of a host to virtual machines that
run under Crosvm, and a client for it. Which device may go where is said in a
JSON configuration.

## Layout

- `src/` is the library, verified with Verus. It holds the rules of the
  configuration, the memory of the manager, and everything that is decided: which
  device matches which rule, which machine gets it, what has to be done for that
  and in which order. It does no input or output. Work that needs the host is
  handed out as a *step* with a value that takes the outcome and gives the next
  step.
- `app/` is the program around it. It reads and writes the files of the kernel,
  runs Crosvm, serves the API and carries the steps out. Under the name
  `ghaf-device-manager` it is the daemon, under any other name the client.
- `tests/` runs the library against a host that answers as it is told to.

## Where to look

| Subject | Module |
| --- | --- |
| Rules and configuration | `config`, `json`, `pattern` |
| Devices as the kernel shows them | `device` |
| Memory of the manager, requests | `manager`, `state`, `protocol`, `api` |
| Attaching and detaching | `usb_attach`, `usb_detach`, `pci`, `batch` |
| Comings and goings of devices | `observe` |
| Host drivers of USB devices | `usb_gate`, `gate` |
| Arguments for starting a machine | `vmm` |
| Crosvm commands and their answers | `crosvm` |
| The client | `cli`, `client` |
| The loop of the daemon | `daemon` |
| Text, numbers, order, tables | `text`, `number`, `order`, `table` |

Functions named `law_…` state what holds of several functions together.
