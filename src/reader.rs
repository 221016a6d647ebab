use vstd::prelude::*;

verus! {

/// The state of a lenient directory reader.
///
/// `Opened` holds the live listing handle of the operating system;
/// `Failed` means the open failed or the listing has ended, and is final.
pub enum ReadDir<H> {
    Opened(H),
    Failed,
}

/// What a reader decides on one raw slot of the listing.
pub enum Step<T> {
    /// A readable entry: hand it to the caller.
    Entry(T),
    /// An unreadable slot: drop it and ask the handle for the next one.
    Skip,
    /// The sequence is over.
    End,
}

/// The reader made from the outcome of opening a directory.
pub open spec fn opened_from<H, E>(opened: Result<H, E>) -> ReadDir<H> {
    match opened {
        Ok(h) => ReadDir::Opened(h),
        Err(_) => ReadDir::Failed,
    }
}

/// Makes a reader from the outcome of opening a directory: a listing handle
/// gives an opened reader, any error a failed one.
pub fn read_dir<H, E>(opened: Result<H, E>) -> (r: ReadDir<H>)
    ensures
        r == opened_from(opened),
{
    match opened {
        Ok(h) => ReadDir::Opened(h),
        Err(_) => ReadDir::Failed,
    }
}

/// The reader's state after it has been handed `slot`: the end of the
/// listing fails it, any other slot leaves it as it was.
pub open spec fn next_state<H, T, E>(s: ReadDir<H>, slot: Option<Result<T, E>>) -> ReadDir<H> {
    match slot {
        None => ReadDir::Failed,
        Some(_) => s,
    }
}

/// What the reader in state `s` decides on `slot`.
pub open spec fn step_of<H, T, E>(s: ReadDir<H>, slot: Option<Result<T, E>>) -> Step<T> {
    match s {
        ReadDir::Failed => Step::End,
        ReadDir::Opened(_) => match slot {
            Some(Ok(e)) => Step::Entry(e),
            Some(Err(_)) => Step::Skip,
            None => Step::End,
        },
    }
}

impl<H> ReadDir<H> {
    /// Decides on one raw slot of the listing, as the handle reported it
    /// (`None` at the end of the listing).
    ///
    /// An opened reader yields a readable entry, skips an unreadable one and
    /// ends, for good, at the end of the listing. A failed reader ends
    /// whatever it is handed. The handle itself is never touched.
    pub fn advance<T, E>(&mut self, slot: Option<Result<T, E>>) -> (r: Step<T>)
        ensures
            r == step_of(*old(self), slot),
            *final(self) == next_state(*old(self), slot),
    {
        match slot {
            None => {
                *self = ReadDir::Failed;
                Step::End
            },
            Some(res) => match self {
                ReadDir::Failed => Step::End,
                ReadDir::Opened(_) => match res {
                    Ok(e) => Step::Entry(e),
                    Err(_) => Step::Skip,
                },
            },
        }
    }
}

} // verus!
