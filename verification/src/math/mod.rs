pub mod bezier;
pub mod calc;
pub mod contour;
pub mod lalg;
pub mod shape;
