pub mod bipbuffer;
pub mod buffer;
pub mod mpsc_light;
pub mod notify;
pub mod oneshot;
pub mod padding;
pub mod triplebuffer;
