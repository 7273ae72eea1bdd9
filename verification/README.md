# etag

Verified core of an ePaper inventory-tag system for the Grocy ERP: the tag
firmware's logic (QR-code generation, framebuffer drawing, mesh payload codecs,
stock handling, update queues) and the bridge's logic (device registry, mesh
ingest with duplicate rejection, Grocy synchronisation decisions,
configuration parsing), each function stated by a contract and proved with
Verus.

Layout:

- `src/firmware/` — `qr` (byte-mode QR codes, versions 1–5, ECC level M),
  `display` (framebuffer, QR area, controller command sequences), `mesh`
  (inventory and configuration wire formats, publisher), `grocy` (tag state,
  Grocycodes), `state_sync` (bounded `embassy_sync` event channels, bridge updates,
  applying updates), `buttons` (button and battery decisions of the main loop),
  `text` (the `heapless` strings and buffers used), `config` (board limits).
- `src/bridge/` — `device` (address-ordered registry), `mesh` (packet
  decoding, revision guard, event application), `ble` (GATT payloads,
  notifications and the periodic device summary line), `grocy` (stock sync decision), `grpc` (node reports),
  `config` (settings from environment values).
- `src/gui.rs` — bridge address setting and frontend summaries.
- `src/grocycode.rs`, `src/numeric_text.rs` — Grocycodes, decimal and
  hexadecimal text.
- `tests/` — executable tests of the library.
- `app/` — the bridge program: environment, tokio runtime, UDP and BLE I/O,
  HTTP calls to Grocy.
