//! Verified core of a DVD video source: MPEG program-stream and MPEG-2
//! video header parsing, VOBU indexing, audio stream layout and the frame
//! bookkeeping that the VapourSynth filters build on.

pub mod bytes;
pub mod mpegps;
pub mod mpeg2video;
pub mod index;
pub mod vobu_range;
pub mod gop;
pub mod retime;
pub mod pack;
pub mod indexer;
pub mod audio;
pub mod demux;
pub mod dvdio;
pub mod filters;
pub mod audio_clip;
pub mod index_manager;
pub mod decode_track;
