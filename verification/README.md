# swbt_bumble_backend

Bluetooth Classic HID backend: a session offers one HID service, pairs with or
reconnects to one peer, sends input reports and hands output reports to the
application.

`src/` is the library. Every function in it carries a contract that Verus
proves; nothing in it performs input or output.

- `hci`, `l2cap`, `sdp`, `hidp`: packets, channels, service discovery and HID
  messages
- `acl_flow`, `classic_host`: flow control and the host's side of the link
- `hid_service`: the service record and the two HID channels
- `session`: controller startup, the session and what holds of it
- `usb`: adapter selection, endpoints and the framing of transfers
- `*_laws`, `laws`: what holds across several functions

`app/` moves the bytes: it opens the adapter with `rusb`, reads packets on a
thread, keeps the deadlines and writes what the session has to send.
