//! Diagnostics collected while a declaration is read.

use vstd::prelude::*;
use vstd::string::*;
use crate::text::{decimal, push_decimal};

verus! {

/// The lines that follow the heading of a report: each message on a line
/// of its own, behind a tab and a hash mark.
pub open spec fn report_items(errors: Seq<Seq<char>>) -> Seq<char>
    decreases errors.len(),
{
    if errors.len() == 0 {
        Seq::empty()
    } else {
        report_items(errors.drop_last()) + "\n\t# "@ + errors.last()
    }
}

/// The text that stands for a non-empty list of messages: the message
/// itself where there is one, else a count and the messages line by line.
pub open spec fn report(errors: Seq<Seq<char>>) -> Seq<char> {
    if errors.len() == 1 {
        errors[0]
    } else {
        decimal(errors.len()) + " errors:"@ + report_items(errors)
    }
}

/// Collects messages in the order in which they are raised.
pub struct Errors {
    errors: Vec<String>,
}

impl View for Errors {
    type V = Seq<Seq<char>>;

    closed spec fn view(&self) -> Seq<Seq<char>> {
        self.errors.deep_view()
    }
}

impl Errors {
    /// A collector that holds no message.
    pub fn new() -> (r: Self)
        ensures
            r@ == Seq::<Seq<char>>::empty(),
    {
        let r = Errors { errors: Vec::new() };
        assert(r@ =~= Seq::<Seq<char>>::empty());
        r
    }

    /// Records `msg` behind the messages recorded so far.
    pub fn error(&mut self, msg: &str)
        ensures
            final(self)@ == old(self)@.push(msg@),
    {
        self.errors.push(String::from_str(msg));
        assert(self@ =~= old(self)@.push(msg@));
    }

    /// The number of messages recorded so far.
    pub fn len(&self) -> (n: usize)
        ensures
            n == self@.len(),
    {
        self.errors.len()
    }

    /// Ends the collection: `Ok` when nothing was recorded, else the report
    /// of what was.
    pub fn check(self) -> (r: Result<(), String>)
        ensures
            self@.len() == 0 ==> r is Ok,
            self@.len() > 0 ==> r is Err && r->Err_0@ == report(self@),
    {
        let mut errors = self.errors;
        let n = errors.len();
        if n == 0 {
            Ok(())
        } else if n == 1 {
            assert(errors.deep_view()[0] == errors@[0]@);
            match errors.pop() {
                Some(only) => Err(only),
                None => Ok(()),
            }
        } else {
            let mut msg = String::new();
            push_decimal(&mut msg, n as u128);
            msg.append(" errors:");
            let mut i: usize = 0;
            while i < n
                invariant
                    n == errors@.len(),
                    i <= n,
                    msg@ == decimal(n as nat) + " errors:"@ + report_items(
                        errors.deep_view().take(i as int),
                    ),
                decreases n - i,
            {
                msg.append("\n\t# ");
                msg.append(errors[i].as_str());
                proof {
                    let before = errors.deep_view().take(i as int);
                    let after = errors.deep_view().take(i + 1);
                    assert(after.drop_last() =~= before);
                    assert(after.last() == errors@[i as int]@);
                    assert(msg@ =~= decimal(n as nat) + " errors:"@ + report_items(after));
                }
                i += 1;
            }
            proof {
                assert(errors.deep_view().take(n as int) =~= errors.deep_view());
            }
            Err(msg)
        }
    }
}

} // verus!
