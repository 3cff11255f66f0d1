//! Optical-flow motion blur for video.
//!
//! Every frame of a video is compared with its neighbours, the motion of each
//! pixel is estimated, and the frame is smeared along that motion as a camera
//! shutter would do that stays open for part of the frame interval.
//!
//! * `session` carries the frames through the program, `frames` blurs one of
//!   them on the host, `gpu` on a graphics device.
//! * `flow`, `levels`, `lucas_kanade`, `boxsum`, `median` and `image` estimate
//!   motion; `blur` smears.
//! * `numerics` is the arithmetic that these are written over, `formulas` says
//!   what it computes; `parallel` spreads the work over threads.
//! * `exact`, `sampling` and `exposure` say what formulas, samples and the blur
//!   amount to where arithmetic is exact, `whole` what samples do where only whole
//!   numbers are; `determinism` and `outcomes` say that there is one outcome where
//!   arithmetic has one.
//! * `model` says over pictures of real numbers what motion estimation and blur are
//!   for, and `moving` which way the motion points; `reading`, `stepping`,
//!   `descending`, `smearing` and `heading` show, pass by pass, that this is what
//!   comes out where arithmetic is exact. `gpu::meaning` and `gpu::calls` show it of
//!   the device.
//! * `probe`, `video`, `text` and `pixels` deal with the outside world: reports,
//!   command lines and frame formats. `passing`, `reports` and `wording` tell what
//!   comes of them over what goes in.
use vstd::prelude::*;

pub mod blur;
pub mod boxsum;
pub mod descending;
pub mod determinism;
pub mod exact;
pub mod exposure;
pub mod flow;
pub mod formulas;
pub mod frames;
pub mod gpu;
pub mod grid;
pub mod heading;
pub mod image;
pub mod levels;
pub mod lucas_kanade;
pub mod median;
pub mod model;
pub mod moving;
pub mod numerics;
pub mod outcomes;
pub mod parallel;
pub mod passing;
pub mod pixels;
pub mod probe;
pub mod reading;
pub mod reports;
pub mod sampling;
pub mod session;
pub mod smearing;
pub mod stepping;
pub mod text;
pub mod video;
pub mod whole;
pub mod wording;

verus! {

} // verus!
