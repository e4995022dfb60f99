use vstd::prelude::*;

verus! {

/// An error carrying a human readable message.
#[derive(Debug)]
pub struct Error {
    message: String,
}

impl Error {
    pub closed spec fn spec_message(&self) -> Seq<char> {
        self.message@
    }

    pub fn new(message: String) -> (e: Self)
        ensures
            e.spec_message() == message@,
    {
        Self { message }
    }

    /// A failed result carrying `message`.
    pub fn error<T>(message: String) -> (r: Result<T, Error>)
        ensures
            r matches Err(e) && e.spec_message() == message@,
    {
        Err(Self::new(message))
    }

    pub fn message(&self) -> (m: &String)
        ensures
            m@ == self.spec_message(),
    {
        &self.message
    }
}

} // verus!
