//! Track geometry for force-vector design.
//!
//! A ride is described by a time-ordered profile of eased segments: the
//! acceleration that a rider should feel and the rate at which the train
//! rolls. An integrator walks through the profile in fixed steps and turns it
//! into a sampled centre line, which can be evaluated along its length and
//! exported as an XML element list.
//!
//! All quantities are fixed-point integers that count millionths of their
//! unit (see [`units::ONE`]): seconds, metres, metres per second, multiples
//! of g, degrees per second, radians, and the components of unit
//! quaternions. Every result is stated exactly, as a rational expression
//! rounded to the nearest millionth (square roots are rounded down).
//!
//! The modules, leaves first:
//!
//! - [`arith`]: rounded division and the integer square root;
//! - [`units`]: the scale, gravity and the conversions to feet and miles;
//! - [`geometry`]: points, orientations and the axes of a rotated frame;
//! - [`vector`]: the vector operations of the integrator;
//! - [`rotation`]: the product of quaternions and their normalisation;
//! - [`timeline`]: segments laid end to end, and which one a time falls into;
//! - [`transitions`]: the shapes, segments and profiles of one quantity;
//! - [`channels`]: profiles of three quantities over shared segments;
//! - [`spline`]: the sampled centre line, its length and its evaluation;
//! - [`fvd`]: the integrator;
//! - [`decimal`]: numbers written with five fractional digits;
//! - [`xml`]: what is relied on from the XML writer;
//! - [`export`]: the centre line as an XML document.
//!
//! Two things take a sine and a cosine and are left to the caller: making a
//! quaternion of an axis and an angle, which [`fvd::create_spline`] asks of a
//! function handed to it, and the spherical interpolation between the
//! orientations of two samples, for which [`spline::TrackSpline::evaluate`]
//! names the two orientations and the fraction.
pub mod arith;
pub mod channels;
pub mod decimal;
pub mod export;
pub mod fvd;
pub mod geometry;
pub mod rotation;
pub mod spline;
pub mod timeline;
pub mod transitions;
pub mod units;
pub mod vector;
pub mod xml;
