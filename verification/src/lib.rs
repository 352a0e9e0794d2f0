//! Codecs for PopCap game asset formats: PTX textures (ETC1, PVRTC and the
//! packed RGBA layouts), POPFX render-effect tables, RSB patch containers,
//! PAM animations, the compiled Reanim and Particles animation files, and
//! resource manifests.

pub mod color;
pub mod blend;
pub mod bytes;
pub mod etc1;
pub mod image;
pub mod particles;
pub mod particles_names;
mod pam_read;
mod pam_write;
mod pam_proof;
mod particles_read;
mod particles_write;
mod particles_proof;
pub mod pam;
pub mod pam_html;
pub mod pam_timeline;
pub mod patch;
pub mod popfx;
pub mod ptx;
mod ptx_decode;
mod ptx_encode;
pub mod pvrtc;
pub mod pvrtc_encode;
pub mod reanim;
pub mod resource;
pub mod resources;
mod resources_write;
mod resources_proof;
mod reanim_read;
mod reanim_write;
mod reanim_proof;
pub mod rsb_patch;
pub mod text;
pub mod trail;
pub mod zlib;
