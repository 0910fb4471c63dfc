# Nostos

An offline way home over raw LoRa. A beacon left at the starting point reports a position
every minute in a frame of 16 bytes; a handheld receiver decodes the frames, keeps a
breadcrumb trail, draws it on an e-paper page and shows the way back.

`src/` is the logic of the receiver, written in Verus: what every function returns is
stated in its contract and proved. `app/` is the firmware around it: drivers, the clock and
the floating-point geodesy. `tests/` runs the library on concrete values.

| module | what it holds |
| --- | --- |
| `frame`, `radio`, `bytes` | the frame, its checksum, and the radio's fixed parameters |
| `mesh`, `protobuf` | Meshtastic packets: header, cipher, and position messages |
| `nav`, `receiver` | the trail, what frames do to it, and when the device's health is logged |
| `text`, `statuslog`, `sdlog` | lines of the logs, and adding them to a file on the card |
| `page`, `shapes`, `label`, `draw` | the page, lines and disks on it, text, and the trail map |
| `panel` | what is sent to the e-paper panel, and when a full update is due |
| `power`, `expander`, `lora`, `led` | what is sent to the other parts, and what their answers mean |
| `ui`, `device` | buttons, touches, the front light, and one turn of the main loop |

Proof functions whose names begin with `law_` state what holds of several functions taken
together.
