# Crabsoup

An audio streaming engine. A station plays playlists with crossfades, lets a
live DJ or a jingle take over, and broadcasts to Icecast and SHOUTcast, HLS,
RTMP, files, MP4 recordings and sound cards.

- `src/` is the library, written in Verus: containers (Ogg, MPEG-TS, FLV,
  MP4), the HTTP and source protocols, request annotations, the control port,
  the HLS window, and the state machines of the mixers and outputs. Every
  function is proved against its contract, except for the small wrappers on
  outside crates and the standard library: their contracts are believed, and
  their comments say what they claim. What holds of several functions
  together stands in the proof functions whose names begin with `law_`.
- `app/` is the program around it: sockets, files, threads, codecs, and signal
  processing in floating point. Samples and seconds cross into the library as
  bit patterns, or as values that it only moves.
- `tests/` runs the library on concrete values.

A station is described in a JSON file:

```json
{
  "stream": { "sample_rate": 44100, "channels": 2 },
  "mixer": { "crossfade_seconds": 3.0 },
  "directory": "./media",
  "jingles": { "directory": "./jingles" },
  "harbor": { "port": 8005, "mount": "/live" },
  "control": { "port": 1234, "http_port": 8080 },
  "outputs": [{ "host": "localhost", "mount": "/crabsoup.opus", "format": "opus" }]
}
```

`crabsoup -c station.json` runs it, `--check` prints what it configures, and
`--preview` mixes without broadcasting.
