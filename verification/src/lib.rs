//! Small support utilities: an insertion-ordered hash map, placeholder
//! values for fixtures, and a hexadecimal MD5 digest.

pub mod md5;
pub mod mockable;
pub mod ord_hash;
pub mod ord_hash_laws;
