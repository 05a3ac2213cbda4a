//! How the path of the last saved file is kept in local storage: as its text,
//! with the empty string standing for no path.
use vstd::prelude::*;

verus! {

/// The stored form of an optional save path; a path is held as its text.
pub struct PathBufCodec;

impl PathBufCodec {
    /// The stored text of `path`: the path itself, or the empty string for none.
    pub fn encode(path: &Option<String>) -> (r: String)
        ensures
            r@ == match path {
                Some(p) => p@,
                None => Seq::<char>::empty(),
            },
    {
        match path {
            Some(p) => p.clone(),
            None => String::new(),
        }
    }

    /// The path that `stored` holds: none for the empty string.
    pub fn decode(stored: &str) -> (r: Option<String>)
        ensures
            r is None <==> stored@.len() == 0,
            r matches Some(p) ==> p@ == stored@,
    {
        if stored.is_empty() {
            None
        } else {
            Some(String::from_str(stored))
        }
    }
}

} // verus!
