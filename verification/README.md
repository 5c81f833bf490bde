# castr

Casting a desktop to a screen: castr's own protocol over QUIC, and Miracast.

`src/` is the library. It is written in Verus: every function states what it
returns or changes, and the verifier proves it. It holds

- `media/`: pixel conversion, cropping, the bitrate controller, the jitter
  buffer, the audio and video clock, audio framing, and the software codec;
- `capture/`: the cursor that is drawn into the picture, the list of monitors,
  and the decisions of desktop and sound capture;
- `mf/`: the decisions around the Media Foundation codecs;
- `v4l2/`: the decoder on a V4L2 memory-to-memory device, over whatever
  implements `Ops`;
- `miracast/`: Wi-Fi Display parameters, RTSP, RTP, transport streams, DHCP, the
  supplicant's control interface, the sink's session and service, and, under
  `source/`, the other side of all of it;
- `net/`: identities, pairing, trust, discovery, framing, resending, and logs;
- `number`, `text`, `time`, `wire`: what the others are written with;
- `proto`: the values that both ends of castr's own protocol exchange.

What holds across several functions is stated as a `law_` proof function, next
to the functions it is about or in a `*laws` module beside them.

Calls into outside crates stand behind wrappers whose contracts are believed
rather than proved; each says in its comment which function it calls and what is
claimed of it.

`tests/` runs the library. `app/` is ordinary Rust around it: sockets, files,
devices, threads, TLS, and the Opus codec, for which libopus has to be there.
