pub mod chartgen;
pub mod poll;
pub mod site_c;
pub mod site_d;
pub mod waiters;
pub mod waker;
