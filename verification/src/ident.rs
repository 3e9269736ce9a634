//! One SQL identifier: bare when the lexical rules allow it, otherwise
//! quoted with every embedded double-quote doubled.

use vstd::prelude::*;
use crate::error::IdentError;
use crate::util::{ident_compatible, is_ident_compatible};

verus! {

/// The mathematical shape of an identifier: the bare raw text, or the
/// escaped text that a pair of double quotes will surround.
pub enum IdentV {
    Bare(Seq<char>),
    Quoted(Seq<char>),
}

/// The text with each double-quote character doubled.
pub open spec fn escaped_char(c: char) -> Seq<char> {
    if c == '"' {
        seq!['"', '"']
    } else {
        seq![c]
    }
}

/// The text with every double-quote character doubled, each character
/// escaped independently in order.
pub open spec fn escape_quotes(s: Seq<char>) -> Seq<char>
    decreases s.len(),
{
    if s.len() == 0 {
        Seq::empty()
    } else {
        escape_quotes(s.drop_last()) + escaped_char(s.last())
    }
}

/// Whether the text holds a NUL character.
pub open spec fn contains_nul(s: Seq<char>) -> bool {
    exists|i: int| 0 <= i < s.len() && s[i] == '\x00'
}

/// What building an identifier from the raw text yields: the bare text
/// when it is identifier-compatible; otherwise an error on a NUL byte,
/// else the quoted shape holding the escaped text.
pub open spec fn ident_spec(raw: Seq<char>) -> Result<IdentV, IdentError> {
    if ident_compatible(raw) {
        Ok(IdentV::Bare(raw))
    } else if contains_nul(raw) {
        Err(IdentError::NullByteError())
    } else {
        Ok(IdentV::Quoted(escape_quotes(raw)))
    }
}

impl IdentV {
    /// The canonical text: bare text as it stands; quoted text surrounded
    /// by one leading and one trailing double quote, nothing re-escaped.
    pub open spec fn rendered(self) -> Seq<char> {
        match self {
            IdentV::Bare(s) => s,
            IdentV::Quoted(q) => seq!['"'] + q + seq!['"'],
        }
    }
}

/// A validated SQL identifier.
///
/// `Id` holds raw text that satisfies the bare lexical rules; `Quoted`
/// holds text whose double quotes were already doubled at construction.
#[derive(Debug)]
pub enum PgIdent {
    Id(String),
    Quoted(String),
}

impl View for PgIdent {
    type V = IdentV;

    open spec fn view(&self) -> IdentV {
        match self {
            PgIdent::Id(s) => IdentV::Bare(s@),
            PgIdent::Quoted(q) => IdentV::Quoted(q@),
        }
    }
}

impl Clone for PgIdent {
    /// A clone carries the same text in the same shape.
    fn clone(&self) -> (r: Self)
        ensures
            r == *self,
    {
        match self {
            PgIdent::Id(s) => PgIdent::Id(s.clone()),
            PgIdent::Quoted(q) => PgIdent::Quoted(q.clone()),
        }
    }
}

/// Whether the string holds a NUL character.
fn str_contains_nul(s: &str) -> (r: bool)
    ensures
        r == contains_nul(s@),
{
    let n = s.unicode_len();
    let mut i: usize = 0;
    while i < n
        invariant
            i <= n,
            n == s@.len(),
            forall|j: int| 0 <= j < i ==> s@[j] != '\x00',
        decreases n - i,
    {
        if s.get_char(i) == '\x00' {
            return true;
        }
        i = i + 1;
    }
    false
}

/// The string with every double-quote character doubled.
fn escape_quotes_exec(s: &str) -> (r: String)
    ensures
        r@ == escape_quotes(s@),
{
    let n = s.unicode_len();
    let mut out = String::new();
    let mut i: usize = 0;
    while i < n
        invariant
            i <= n,
            n == s@.len(),
            out@ == escape_quotes(s@.take(i as int)),
        decreases n - i,
    {
        let c = s.get_char(i);
        let piece = s.substring_char(i, i + 1);
        proof {
            assert(piece@ =~= seq![s@[i as int]]);
            assert(s@.take(i + 1).drop_last() =~= s@.take(i as int));
            assert(s@.take(i + 1).last() == s@[i as int]);
        }
        out.append(piece);
        if c == '"' {
            out.append(piece);
            proof {
                assert(out@ =~= escape_quotes(s@.take(i + 1)));
            }
        } else {
            proof {
                assert(out@ =~= escape_quotes(s@.take(i + 1)));
            }
        }
        i = i + 1;
    }
    proof {
        assert(s@.take(n as int) =~= s@);
    }
    out
}

impl PgIdent {
    /// Classify the raw string and build the identifier: bare when the
    /// lexical rules allow it, quoted with doubled quotes otherwise, and
    /// an error exactly when a non-bare string holds a NUL byte.
    pub fn new(id: &str) -> (r: Result<PgIdent, IdentError>)
        ensures
            match ident_spec(id@) {
                Ok(v) => r is Ok && r->Ok_0@ == v,
                Err(e) => r is Err && r->Err_0 == e,
            },
    {
        if is_ident_compatible(id) {
            Ok(PgIdent::Id(id.to_owned()))
        } else if str_contains_nul(id) {
            Err(IdentError::NullByteError())
        } else {
            Ok(PgIdent::Quoted(escape_quotes_exec(id)))
        }
    }

    /// The canonical text of the identifier: the stored text as it
    /// stands, surrounded by double quotes for the quoted shape. Nothing
    /// is re-validated or re-escaped here.
    pub fn render(&self) -> (r: String)
        ensures
            r@ == self@.rendered(),
    {
        match self {
            PgIdent::Id(s) => s.clone(),
            PgIdent::Quoted(q) => {
                proof {
                    reveal_strlit("\"");
                }
                let mut out = String::new();
                out.append("\"");
                out.append(q.as_str());
                out.append("\"");
                proof {
                    assert(("\"")@ =~= seq!['"']);
                    assert(out@ =~= self@.rendered());
                }
                out
            },
        }
    }
}

/// Law: a string that meets the bare lexical rules builds the bare
/// identifier, and its rendering is exactly the raw text.
pub proof fn lemma_bare_renders_raw(raw: Seq<char>)
    requires
        ident_compatible(raw),
    ensures
        ident_spec(raw) == Ok::<IdentV, IdentError>(IdentV::Bare(raw)),
        ident_spec(raw)->Ok_0.rendered() == raw,
{
}

/// Law: a NUL-free string outside the bare lexical rules builds the
/// quoted identifier, escaped exactly once at construction; its rendering
/// is the raw text with every double quote doubled, surrounded by one
/// pair of double quotes.
pub proof fn lemma_quoted_renders_escaped(raw: Seq<char>)
    requires
        !ident_compatible(raw),
        !contains_nul(raw),
    ensures
        ident_spec(raw) == Ok::<IdentV, IdentError>(IdentV::Quoted(escape_quotes(raw))),
        ident_spec(raw)->Ok_0.rendered() == seq!['"'] + escape_quotes(raw) + seq!['"'],
{
}

/// Law: a string that holds a NUL byte and cannot stand bare is rejected
/// with the NUL-byte error.
pub proof fn lemma_nul_rejected(raw: Seq<char>)
    requires
        contains_nul(raw),
        !ident_compatible(raw),
    ensures
        ident_spec(raw) == Err::<IdentV, IdentError>(IdentError::NullByteError()),
{
}

} // verus!
