// Scene-graph rendering logic, verified: the node tree and its transform pass, the
// draw order and texture bindings of each scene pass, the passes of a frame, the
// validation of render targets, the revolving camera's animation and the keyboard
// state. Drawing, matrices and windowing stay with the caller, which hands this
// library plain handles and values.

pub mod camera;
pub mod graph;
pub mod input;
pub mod texture;
