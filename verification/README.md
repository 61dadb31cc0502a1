# cliprtc

The verified core of a LAN clipboard synchronisation service. Devices find
each other over mDNS, pin each other's TLS certificates by fingerprint, and
send clipboard payloads (text, images, archives of files) over QUIC.

`src/` is the library, verified with Verus:

- `fingerprint`: SHA-256 fingerprints of certificates, in lowercase hex.
- `decimal`: port numbers in decimal, timestamps in hex.
- `encoding`: base64 and lossy UTF-8 decoding.
- `properties`: the TXT properties a device advertises and the metadata a
  peer recovers from them.
- `collections`: the shared `dashmap` collections and what their methods do.
- `devices`, `registry`: discovered devices, trusted fingerprints, allowed
  device ids and the replay filter for incoming payloads.
- `clipboard`: what a local clipboard change sends, and suppression of the
  change a received payload causes.
- `transfer`: payload metadata, its length-prefixed frame, and where
  payloads go.
- `paths`: the common base directory and the entries of a file archive, and
  the folder a received archive is unpacked into.

`app/` holds the I/O around it: JSON on the wire, streams, archives on disk,
mDNS registration and browsing, and TLS verifiers. `tests/` runs the library
on concrete values.
