//! Direct-to-display presentation.
//!
//! The guest's frames go straight to a DRM connector, with this process as the
//! DRM master: no Wayland, no X, no compositor. The card is `/dev/dri/card1`
//! unless `REIMS_VGPU_DRM_CARD` names another. The connector is the first one
//! whose state is `connected`, or the one `REIMS_VGPU_CONNECTOR` names (for
//! example `HDMI-A-1`). The mode is 1920x1080 when the connector offers it,
//! otherwise the preferred mode, otherwise the first one listed.
//!
//! Every failure to take the screen is a typed refusal with its own slug, never
//! a silent fall back to another output.

pub mod capture;
pub mod cursor;
pub mod drm;
pub mod run;
pub mod select;
