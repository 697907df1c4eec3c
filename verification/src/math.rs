pub mod complex_scalar;
pub mod ecc;
pub mod field;
pub mod interpolation_laws;
pub mod matrix;
pub mod matrix_laws;
pub mod pairing;
pub mod polynomial;
pub mod polynomial_laws;
pub mod primes;
pub mod roots_of_unity;
