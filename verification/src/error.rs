use vstd::prelude::*;
use crate::text::{decimal, push_decimal};

verus! {

/// Why an operation of the library was refused.
#[derive(Debug)]
pub enum AstError {
    /// The file name has an extension that no supported language uses.
    UnsupportedExtension(String),
    /// The parser returned a tree whose positions do not fit the source.
    MalformedTree,
    /// A node's byte range is not a piece of valid UTF-8 text.
    InvalidText,
    /// A line range `start:end` that does not fit a file of `lines` lines.
    InvalidLineRange { start: usize, end: usize, lines: usize },
    /// An address with no part.
    EmptyAddress,
    /// No definition of the given name.
    NotFound(String),
    /// No member of the given name in any container of the address.
    NotFoundIn { member: String, address: String },
    /// The query could not be compiled; tree-sitter's message.
    InvalidQuery(String),
    /// A capture refers to a name the query does not have.
    InvalidCaptureIndex(u32),
    /// A count does not fit in a machine word.
    Overflow,
}

impl AstError {
    /// What the error says to a reader.
    pub open spec fn spec_message(self) -> Seq<char> {
        match self {
            AstError::UnsupportedExtension(ext) => "unsupported file extension: ."@ + ext@,
            AstError::MalformedTree => "malformed syntax tree"@,
            AstError::InvalidText => "invalid UTF-8 in node text"@,
            AstError::InvalidLineRange { start, end, lines } => "invalid line range "@ + decimal(
                start as nat,
            ) + ":"@ + decimal(end as nat) + " (file has "@ + decimal(lines as nat) + " lines)"@,
            AstError::EmptyAddress => "empty address"@,
            AstError::NotFound(name) => "could not find '"@ + name@ + "'"@,
            AstError::NotFoundIn { member, address } => "could not find '"@ + member@ + "' in '"@
                + address@ + "'"@,
            AstError::InvalidQuery(message) => message@,
            AstError::InvalidCaptureIndex(i) => "invalid capture index: "@ + decimal(i as nat),
            AstError::Overflow => "count does not fit in a machine word"@,
        }
    }

    /// The error as a line of text.
    pub fn message(&self) -> (res: String)
        ensures
            res@ == self.spec_message(),
    {
        let mut out = String::new();
        proof {
            reveal_strlit("");
            reveal_strlit(":");
            reveal_strlit("'");
        }
        match self {
            AstError::UnsupportedExtension(ext) => {
                out.append("unsupported file extension: .");
                out.append(ext.as_str());
            },
            AstError::MalformedTree => out.append("malformed syntax tree"),
            AstError::InvalidText => out.append("invalid UTF-8 in node text"),
            AstError::InvalidLineRange { start, end, lines } => {
                out.append("invalid line range ");
                push_decimal(&mut out, *start);
                out.append(":");
                push_decimal(&mut out, *end);
                out.append(" (file has ");
                push_decimal(&mut out, *lines);
                out.append(" lines)");
            },
            AstError::EmptyAddress => out.append("empty address"),
            AstError::NotFound(name) => {
                out.append("could not find '");
                out.append(name.as_str());
                out.append("'");
            },
            AstError::NotFoundIn { member, address } => {
                out.append("could not find '");
                out.append(member.as_str());
                out.append("' in '");
                out.append(address.as_str());
                out.append("'");
            },
            AstError::InvalidQuery(message) => out.append(message.as_str()),
            AstError::InvalidCaptureIndex(i) => {
                out.append("invalid capture index: ");
                push_decimal(&mut out, *i as usize);
            },
            AstError::Overflow => out.append("count does not fit in a machine word"),
        }
        proof {
            assert(""@ =~= Seq::<char>::empty());
        }
        assert(out@ =~= self.spec_message());
        out
    }
}

} // verus!
