//! Dense row-major matrix and vector arithmetic, generic over integer scalars.
//!
//! Every matrix is modelled in specifications as a ghost [`model::Mat`]:
//! a row count, a column count, and a flat row-major sequence of mathematical
//! integers. The public operations state exactly which model their result has.

pub mod traits;

pub mod model;

pub mod matrix;

pub mod vector;

