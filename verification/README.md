# cs120_project

A verified core for an acoustic network: computers that talk through
speakers and microphones, with a physical layer, a MAC layer and an IP
layer on top.

`src/` is the library, written in Verus and proved against its contracts:

- `bits`, `hexbit`, `byte_order`: packing bits into bytes, bytes into
  six-bit symbols, and big-endian words, with the round trips proved;
- `phy_frame`, `phy_config`, `demodulation`: the physical frame formats (a
  Reed-Solomon protected frame decoded through `code_rs`, and a plain one),
  frame sizes from the settings, the demodulator's state machine and the
  decoding of received bits;
- `mac_frame`, `mac_framer`, `mac_protocol`: MAC frames, splitting data into
  numbered frames, and the stop-and-wait protocol with carrier sense and
  random backoff as a state machine driven by events;
- `checksum`, `ip_packet`, `icmp`: IPv4 and ICMP codecs with the Internet
  checksum;
- `router`, `address_translation`: what the IP adapter does with each
  packet, and the translation of ICMP traffic to other interfaces;
- `args`, `expr`, `number`, `text`: the command line, symbolic expressions
  and their text, least common multiples, and strings.

`tests/` runs the library on concrete values. `app/` is the program around
it: sound devices, signal processing, the virtual network device, raw
sockets, and the command-line entry point.
