//! What is reported when a structure cannot be built from keyword arguments.

use vstd::prelude::*;
use vstd::string::*;
use crate::text::{joined, push_joined, push_signed_decimal, signed_decimal, views};

verus! {

/// One reason for which a structure could not be built.
#[derive(Debug)]
pub enum ToStructErrPart {
    /// None of the keys under which a required field may be passed was seen.
    OmittedKey(&'static [&'static str]),
    /// The key was the last thing on the stack: no value followed it.
    OmittedValue(&'static str),
    /// What stood where a key was expected could not be read as text.
    KeyParseFail {
        /// Stack offset of the unreadable key.
        offset: isize,
        /// Name of the type that a key must have.
        ty: &'static str,
        /// What the conversion said.
        error: String,
    },
    /// The value under a known key could not be read as the field's type.
    ValueParseFail {
        /// The key under which the value stood.
        key: &'static str,
        /// Stack offset of the value.
        offset: isize,
        /// Name of the field's type.
        ty: &'static str,
        /// What the conversion said.
        error: String,
    },
}

/// Every reason for which a structure could not be built, in the order in
/// which the reasons were found.
#[derive(Debug)]
pub struct ToStructErr {
    /// Name of the structure.
    pub name: &'static str,
    /// The reasons; never empty in an error that the decoder returns.
    pub errors: Vec<ToStructErrPart>,
}

impl ToStructErrPart {
    /// The line, tab in front and newline behind, that reports this reason.
    pub open spec fn line(self) -> Seq<char> {
        match self {
            ToStructErrPart::OmittedKey(names) => {
                if names@.len() == 1 {
                    "\tMissing field: "@ + names@[0]@ + "\n"@
                } else {
                    "\tMissing one of the following fields: "@ + joined(views(names@), ", "@)
                        + "\n"@
                }
            },
            ToStructErrPart::OmittedValue(name) => "\tValue is required for: "@ + name@ + "\n"@,
            ToStructErrPart::KeyParseFail { offset, ty, error } => {
                "\tFailed to parse key at offset "@ + signed_decimal(offset as int) + " as "@ + ty@
                    + ": "@ + error@ + "\n"@
            },
            ToStructErrPart::ValueParseFail { key, offset, ty, error } => {
                "\tFailed to parse value of "@ + key@ + " as "@ + ty@ + ": "@ + error@ + "\n"@
            },
        }
    }

    /// Appends the line that reports this reason to `out`.
    pub fn write_line(&self, out: &mut String)
        ensures
            final(out)@ == old(out)@ + self.line(),
    {
        match self {
            ToStructErrPart::OmittedKey(names) => {
                if names.len() == 1 {
                    out.append("\tMissing field: ");
                    out.append(names[0]);
                    out.append("\n");
                    assert(out@ =~= old(out)@ + self.line());
                } else {
                    out.append("\tMissing one of the following fields: ");
                    push_joined(out, names, ", ");
                    out.append("\n");
                    assert(out@ =~= old(out)@ + self.line());
                }
            },
            ToStructErrPart::OmittedValue(name) => {
                out.append("\tValue is required for: ");
                out.append(name);
                out.append("\n");
                assert(out@ =~= old(out)@ + self.line());
            },
            ToStructErrPart::KeyParseFail { offset, ty, error } => {
                out.append("\tFailed to parse key at offset ");
                push_signed_decimal(out, *offset as i64);
                out.append(" as ");
                out.append(ty);
                out.append(": ");
                out.append(error.as_str());
                out.append("\n");
                assert(out@ =~= old(out)@ + self.line());
            },
            ToStructErrPart::ValueParseFail { key, offset: _, ty, error } => {
                out.append("\tFailed to parse value of ");
                out.append(key);
                out.append(" as ");
                out.append(ty);
                out.append(": ");
                out.append(error.as_str());
                out.append("\n");
                assert(out@ =~= old(out)@ + self.line());
            },
        }
    }
}

/// The lines of `parts`, one after another.
pub open spec fn lines(parts: Seq<ToStructErrPart>) -> Seq<char>
    decreases parts.len(),
{
    if parts.len() == 0 {
        Seq::empty()
    } else {
        lines(parts.drop_last()) + parts.last().line()
    }
}

impl ToStructErr {
    /// The whole report: a heading that names the structure, then one line
    /// for each reason.
    pub open spec fn rendered(self) -> Seq<char> {
        "Failed to instantiate "@ + self.name@ + "\n"@ + lines(self.errors@)
    }

    /// The report as text.
    pub fn to_string(&self) -> (r: String)
        ensures
            r@ == self.rendered(),
    {
        let mut out = String::new();
        out.append("Failed to instantiate ");
        out.append(self.name);
        out.append("\n");
        let n = self.errors.len();
        let mut i: usize = 0;
        while i < n
            invariant
                n == self.errors@.len(),
                i <= n,
                out@ == "Failed to instantiate "@ + self.name@ + "\n"@ + lines(
                    self.errors@.take(i as int),
                ),
            decreases n - i,
        {
            self.errors[i].write_line(&mut out);
            proof {
                let before = self.errors@.take(i as int);
                let after = self.errors@.take(i + 1);
                assert(after.drop_last() =~= before);
                assert(after.last() == self.errors@[i as int]);
                assert(out@ =~= "Failed to instantiate "@ + self.name@ + "\n"@ + lines(after));
            }
            i += 1;
        }
        proof {
            assert(self.errors@.take(n as int) =~= self.errors@);
        }
        out
    }
}

} // verus!
