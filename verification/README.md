# dvdsrc

A DVD source for VapourSynth whose stream handling is verified with Verus.

- `src/` is the verified library:
  - `bytes`, `mpegps`, `mpeg2video`, `pack`: parsing of MPEG program-stream
    packs, PES headers and MPEG-2 video headers;
  - `gop`, `retime`, `indexer`, `index`: splitting a VOBU's video into GOPs,
    repairing temporal references, and indexing a title set pack by pack;
  - `vobu_range`, `filters`: VOBU selection, frame tables, the info frame,
    decode planning and display order for the video clip, the raw VOB
    sector table;
  - `decode_track`: following the MPEG-2 decoder's states through a VOBU;
  - `audio`, `audio_clip`, `demux`: AC-3/LPCM stream layout over VOBUs,
    demuxing, and the sample arithmetic of the audio clips;
  - `dvdio`: sector-aligned reads and the read-ahead cache;
  - `index_manager`: where indexes are cached.
- `app/` is the plugin around it: libdvdread, liba52 and libmpeg2 bindings,
  file and cache I/O, index serialisation, and the VapourSynth filters.
- `tests/` runs the library on concrete streams.
