//! The comparator algebra: six comparison operators with parsing, SQL
//! rendering and an involutive logical negation.

use vstd::prelude::*;

use crate::error::SuchError;

verus! {

/// The six comparison operators a query may use against a field.
#[allow(clippy::upper_case_acronyms)]
#[derive(Copy, Clone, Eq, PartialEq, Debug, Structural)]
pub enum CompOp {
    Equal,
    NotEqual,
    Gt,
    Lt,
    Gte,
    Lte,
}

impl CompOp {
    /// The SQL spelling of this comparator.
    pub open spec fn spec_str(self) -> Seq<char> {
        match self {
            CompOp::Equal => seq!['='],
            CompOp::Gt => seq!['>'],
            CompOp::Gte => seq!['>', '='],
            CompOp::Lt => seq!['<'],
            CompOp::Lte => seq!['<', '='],
            CompOp::NotEqual => seq!['!', '='],
        }
    }

    /// Logical negation: `!a = b` is `a != b`, `!a > b` is `a <= b`.
    pub open spec fn spec_negate(self) -> CompOp {
        match self {
            CompOp::Equal => CompOp::NotEqual,
            CompOp::NotEqual => CompOp::Equal,
            CompOp::Gt => CompOp::Lte,
            CompOp::Gte => CompOp::Lt,
            CompOp::Lte => CompOp::Gt,
            CompOp::Lt => CompOp::Gte,
        }
    }

    /// Logical negation of a comparator; an involution (see
    /// [`crate::laws::lemma_comp_op_negate_involution`]).
    pub fn negate(self) -> (r: CompOp)
        ensures
            r == self.spec_negate(),
    {
        match self {
            CompOp::Equal => CompOp::NotEqual,
            CompOp::NotEqual => CompOp::Equal,
            CompOp::Gt => CompOp::Lte,
            CompOp::Gte => CompOp::Lt,
            CompOp::Lte => CompOp::Gt,
            CompOp::Lt => CompOp::Gte,
        }
    }

    /// Renders this comparator as it appears in emitted SQL.
    pub fn to_chars(self) -> (r: Vec<char>)
        ensures
            r@ == self.spec_str(),
    {
        let mut v: Vec<char> = Vec::new();
        match self {
            CompOp::Equal => {
                v.push('=');
            },
            CompOp::Gt => {
                v.push('>');
            },
            CompOp::Gte => {
                v.push('>');
                v.push('=');
            },
            CompOp::Lt => {
                v.push('<');
            },
            CompOp::Lte => {
                v.push('<');
                v.push('=');
            },
            CompOp::NotEqual => {
                v.push('!');
                v.push('=');
            },
        }
        proof {
            assert(v@ =~= self.spec_str());
        }
        v
    }

    /// Renders this comparator as a `String`, e.g. for messages.
    pub fn to_text(self) -> (r: String)
        ensures
            r@ == self.spec_str(),
    {
        let v = self.to_chars();
        crate::chars::chars_to_string(&v)
    }

    /// Which comparator a comparator token of the query surface language
    /// denotes; `None` for any other text.
    pub open spec fn spec_parse(s: Seq<char>) -> Option<CompOp> {
        if s == seq!['='] || s == seq!['=', '='] {
            Some(CompOp::Equal)
        } else if s == seq!['>', '='] || s == seq!['=', '>'] {
            Some(CompOp::Gte)
        } else if s == seq!['>'] {
            Some(CompOp::Gt)
        } else if s == seq!['<', '='] || s == seq!['=', '<'] {
            Some(CompOp::Lte)
        } else if s == seq!['<'] {
            Some(CompOp::Lt)
        } else if s == seq!['!', '='] || s == seq!['=', '!'] {
            Some(CompOp::NotEqual)
        } else {
            None
        }
    }

    /// Parses a comparator token (`=`, `==`, `!=`, `=!`, `>`, `>=`, `=>`,
    /// `<`, `<=`, `=<`); every other text is rejected.
    pub fn parse(s: &str) -> (r: Result<CompOp, SuchError>)
        ensures
            r is Ok <==> CompOp::spec_parse(s@) is Some,
            r is Ok ==> r->Ok_0 == CompOp::spec_parse(s@)->Some_0,
            r is Err ==> r->Err_0 is ParseError,
    {
        let cs = crate::chars::str_to_chars(s);
        Self::parse_chars(&cs)
    }

    /// Parses a comparator given as a character sequence; see [`CompOp::parse`].
    pub fn parse_chars(s: &Vec<char>) -> (r: Result<CompOp, SuchError>)
        ensures
            r is Ok <==> CompOp::spec_parse(s@) is Some,
            r is Ok ==> r->Ok_0 == CompOp::spec_parse(s@)->Some_0,
            r is Err ==> r->Err_0 is ParseError,
    {
        if s.len() == 1 {
            let c = s[0];
            proof {
                assert(s@ =~= seq![s@[0]]);
            }
            match c {
                '=' => Ok(CompOp::Equal),
                '>' => Ok(CompOp::Gt),
                '<' => Ok(CompOp::Lt),
                _ => Err(SuchError::parse_error_chars(s)),
            }
        } else if s.len() == 2 {
            let a = s[0];
            let b = s[1];
            proof {
                assert(s@ =~= seq![s@[0], s@[1]]);
            }
            if a == '=' && b == '=' {
                Ok(CompOp::Equal)
            } else if (a == '>' && b == '=') || (a == '=' && b == '>') {
                Ok(CompOp::Gte)
            } else if (a == '<' && b == '=') || (a == '=' && b == '<') {
                Ok(CompOp::Lte)
            } else if (a == '!' && b == '=') || (a == '=' && b == '!') {
                Ok(CompOp::NotEqual)
            } else {
                Err(SuchError::parse_error_chars(s))
            }
        } else {
            Err(SuchError::parse_error_chars(s))
        }
    }
}

} // verus!
