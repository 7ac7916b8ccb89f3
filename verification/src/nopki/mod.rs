pub mod correctness;
pub mod kgc;
pub mod model;
pub mod user_keygen;
