//! Schema-qualified names: identifiers are ASCII, case-insensitive, and
//! case-folded to lowercase when constructed; comparisons are byte-wise on
//! the folded form.
use vstd::prelude::*;
use vstd::string::StringSliceAdditionalSpecFns;

verus! {

/// Errors from parsing queries or identifiers.
#[derive(Debug, Clone)]
pub enum ParseError {
    /// The name is empty, starts with a digit, or holds a byte outside
    /// ASCII letters, digits and underscore.
    InvalidIdentifier,
    /// The query text could not be parsed; the payload describes why.
    QueryParseError { error: String },
}

pub open spec fn is_space(b: u8) -> bool {
    b == 32 || b == 9 || b == 10 || b == 13
}

pub open spec fn lower_byte(b: u8) -> u8 {
    if 65 <= b && b <= 90 {
        (b + 32) as u8
    } else {
        b
    }
}

pub open spec fn fold_lower(s: Seq<u8>) -> Seq<u8> {
    s.map_values(|b: u8| lower_byte(b))
}

pub open spec fn is_ident_start(b: u8) -> bool {
    (97 <= b && b <= 122) || b == 95
}

pub open spec fn is_ident_byte(b: u8) -> bool {
    is_ident_start(b) || (48 <= b && b <= 57)
}

/// A well-formed identifier: nonempty, folded to lowercase, starting with a
/// letter or underscore, all bytes letters, digits or underscore.
pub open spec fn is_identifier(s: Seq<u8>) -> bool {
    &&& 0 < s.len()
    &&& is_ident_start(s[0])
    &&& forall|i: int| 0 <= i < s.len() ==> is_ident_byte(#[trigger] s[i])
}

/// The input with leading and trailing ASCII whitespace removed.
pub open spec fn trimmed(s: Seq<u8>) -> Seq<u8>
    decreases s.len(),
{
    if s.len() > 0 && is_space(s[0]) {
        trimmed(s.drop_first())
    } else if s.len() > 0 && is_space(s.last()) {
        trimmed(s.drop_last())
    } else {
        s
    }
}

proof fn lemma_trimmed_subrange(s: Seq<u8>, lo: int, hi: int)
    requires
        0 <= lo <= hi <= s.len(),
        forall|i: int| 0 <= i < lo ==> is_space(#[trigger] s[i]),
        forall|i: int| hi <= i < s.len() ==> is_space(#[trigger] s[i]),
        lo == hi || (!is_space(s[lo]) && !is_space(s[hi - 1])),
    ensures
        trimmed(s) == s.subrange(lo, hi),
    decreases s.len(),
{
    if s.len() == 0 {
        assert(trimmed(s) == s.subrange(lo, hi));
    } else if lo == hi {
        // every byte is whitespace
        assert(forall|i: int| 0 <= i < s.len() ==> is_space(#[trigger] s[i]));
        assert(is_space(s[0]));
        let s1 = s.drop_first();
        assert(forall|i: int| 0 <= i < s1.len() ==> is_space(#[trigger] s1[i]));
        lemma_trimmed_subrange(s1, 0, 0);
        assert(s.subrange(lo, hi) =~= s1.subrange(0, 0));
    } else if lo > 0 {
        assert(is_space(s[0]));
        let s1 = s.drop_first();
        lemma_trimmed_subrange(s1, lo - 1, hi - 1);
        assert(s.subrange(lo, hi) =~= s1.subrange(lo - 1, hi - 1));
    } else if hi < s.len() {
        assert(!is_space(s[0]));
        assert(is_space(s.last()));
        let s1 = s.drop_last();
        lemma_trimmed_subrange(s1, lo, hi);
        assert(s.subrange(lo, hi) =~= s1.subrange(lo, hi));
    } else {
        assert(!is_space(s[0]) && !is_space(s.last()));
        assert(trimmed(s) == s);
        assert(s.subrange(0, s.len() as int) =~= s);
    }
}

/// An identifier, stored as its folded lowercase ASCII bytes.
#[derive(Debug)]
pub struct Identifier {
    bytes: Vec<u8>,
}

impl Clone for Identifier {
    fn clone(&self) -> (r: Identifier)
        ensures
            r@ == self@,
    {
        let b = self.bytes.clone();
        proof {
            assert forall|i: int| 0 <= i < self.bytes@.len() implies b@[i] == self.bytes@[i] by {
                assert(vstd::pervasive::cloned::<u8>(self.bytes[i], b[i]));
            }
            assert(b@ =~= self.bytes@);
        }
        Identifier { bytes: b }
    }
}

impl View for Identifier {
    type V = Seq<u8>;

    closed spec fn view(&self) -> Seq<u8> {
        self.bytes@
    }
}

impl PartialEq for Identifier {
    fn eq(&self, other: &Identifier) -> (r: bool) {
        bytes_eq(&self.bytes, &other.bytes)
    }
}

impl vstd::std_specs::cmp::PartialEqSpecImpl for Identifier {
    open spec fn obeys_eq_spec() -> bool {
        true
    }

    open spec fn eq_spec(&self, other: &Identifier) -> bool {
        self@ == other@
    }
}

impl Eq for Identifier {

}

/// Byte-wise equality of two byte vectors.
pub fn bytes_eq(a: &Vec<u8>, b: &Vec<u8>) -> (r: bool)
    ensures
        r == (a@ == b@),
{
    if a.len() != b.len() {
        assert(a@.len() != b@.len());
        return false;
    }
    let n = a.len();
    let mut i: usize = 0;
    while i < n
        invariant
            n == a@.len() == b@.len(),
            0 <= i <= n,
            forall|j: int| 0 <= j < i ==> a@[j] == b@[j],
        decreases n - i,
    {
        if a[i] != b[i] {
            return false;
        }
        i += 1;
    }
    proof {
        assert(a@ =~= b@);
    }
    true
}

impl Identifier {
    /// Well-formedness: the stored bytes form a folded identifier.
    pub open spec fn wf(&self) -> bool {
        is_identifier(self@)
    }

    /// Trims ASCII whitespace, folds to lowercase, and accepts the result
    /// exactly when it is a well-formed identifier.
    pub fn try_new(s: &str) -> (r: Result<Identifier, ParseError>)
        ensures
            match r {
                Ok(id) => id@ == fold_lower(trimmed(s.spec_bytes())) && id.wf(),
                Err(_) => !is_identifier(fold_lower(trimmed(s.spec_bytes()))),
            },
    {
        Self::try_from_bytes(s.as_bytes())
    }

    /// As `try_new`, from raw ASCII bytes.
    pub fn try_from_bytes(bytes: &[u8]) -> (r: Result<Identifier, ParseError>)
        ensures
            match r {
                Ok(id) => id@ == fold_lower(trimmed(bytes@)) && id.wf(),
                Err(_) => !is_identifier(fold_lower(trimmed(bytes@))),
            },
    {
        let n = bytes.len();
        let mut lo: usize = 0;
        while lo < n && is_space_byte(bytes[lo])
            invariant
                n == bytes@.len(),
                0 <= lo <= n,
                forall|j: int| 0 <= j < lo ==> is_space(#[trigger] bytes@[j]),
            decreases n - lo,
        {
            lo += 1;
        }
        let mut hi: usize = n;
        while hi > lo && is_space_byte(bytes[hi - 1])
            invariant
                n == bytes@.len(),
                lo <= hi <= n,
                forall|j: int| 0 <= j < lo ==> is_space(#[trigger] bytes@[j]),
                forall|j: int| hi <= j < n ==> is_space(#[trigger] bytes@[j]),
            decreases hi,
        {
            hi -= 1;
        }
        proof {
            lemma_trimmed_subrange(bytes@, lo as int, hi as int);
        }
        let ghost t = trimmed(bytes@);
        if lo == hi {
            assert(fold_lower(t).len() == 0);
            return Err(ParseError::InvalidIdentifier);
        }
        let mut out: Vec<u8> = Vec::new();
        let mut i: usize = lo;
        while i < hi
            invariant
                n == bytes@.len(),
                0 <= lo <= i <= hi <= n,
                t == bytes@.subrange(lo as int, hi as int),
                t == trimmed(bytes@),
                out@ =~= fold_lower(t).subrange(0, i - lo),
                forall|j: int| 0 <= j < out@.len() ==> is_ident_byte(#[trigger] out@[j]),
            decreases hi - i,
        {
            let b = bytes[i];
            let f = lower_byte_exec(b);
            assert(fold_lower(t)[i - lo] == lower_byte(bytes@[i as int]));
            if !is_ident_byte_exec(f) {
                proof {
                    assert(fold_lower(t).len() == t.len());
                    assert(0 <= i - lo < fold_lower(t).len());
                    assert(!is_ident_byte(fold_lower(t)[i - lo]));
                    assert(!is_identifier(fold_lower(trimmed(bytes@))));
                }
                return Err(ParseError::InvalidIdentifier);
            }
            out.push(f);
            i += 1;
        }
        assert(out@ =~= fold_lower(t));
        if !is_ident_start_exec(out[0]) {
            assert(!is_ident_start(fold_lower(t)[0]));
            return Err(ParseError::InvalidIdentifier);
        }
        Ok(Identifier { bytes: out })
    }

    /// The folded bytes of the identifier.
    pub fn as_bytes(&self) -> (r: &Vec<u8>)
        ensures
            r@ == self@,
    {
        &self.bytes
    }
}

/// Executable mirror of `is_space`.
pub fn is_space_byte(b: u8) -> (r: bool)
    ensures
        r == is_space(b),
{
    b == 32 || b == 9 || b == 10 || b == 13
}

/// Executable mirror of `lower_byte`.
pub fn lower_byte_exec(b: u8) -> (r: u8)
    ensures
        r == lower_byte(b),
{
    if 65 <= b && b <= 90 {
        b + 32
    } else {
        b
    }
}

/// Executable mirror of `is_ident_start`.
pub fn is_ident_start_exec(b: u8) -> (r: bool)
    ensures
        r == is_ident_start(b),
{
    (97 <= b && b <= 122) || b == 95
}

/// Executable mirror of `is_ident_byte`.
pub fn is_ident_byte_exec(b: u8) -> (r: bool)
    ensures
        r == is_ident_byte(b),
{
    is_ident_start_exec(b) || (48 <= b && b <= 57)
}

/// A schema-qualified table name.
#[derive(Debug, Clone)]
pub struct ResourceId {
    pub schema: Identifier,
    pub object_name: Identifier,
}

impl PartialEq for ResourceId {
    fn eq(&self, other: &ResourceId) -> (r: bool) {
        self.schema == other.schema && self.object_name == other.object_name
    }
}

impl vstd::std_specs::cmp::PartialEqSpecImpl for ResourceId {
    open spec fn obeys_eq_spec() -> bool {
        true
    }

    open spec fn eq_spec(&self, other: &ResourceId) -> bool {
        self.schema@ == other.schema@ && self.object_name@ == other.object_name@
    }
}

impl Eq for ResourceId {

}

impl ResourceId {
    pub open spec fn wf(&self) -> bool {
        self.schema.wf() && self.object_name.wf()
    }

    /// Folds both parts and accepts exactly when both are identifiers.
    pub fn try_new(schema: &str, object_name: &str) -> (r: Result<ResourceId, ParseError>)
        ensures
            match r {
                Ok(rid) => {
                    &&& rid.schema@ == fold_lower(trimmed(schema.spec_bytes()))
                    &&& rid.object_name@ == fold_lower(trimmed(object_name.spec_bytes()))
                    &&& rid.wf()
                },
                Err(_) => !is_identifier(fold_lower(trimmed(schema.spec_bytes())))
                    || !is_identifier(fold_lower(trimmed(object_name.spec_bytes()))),
            },
    {
        let schema = Identifier::try_new(schema)?;
        let object_name = Identifier::try_new(object_name)?;
        Ok(ResourceId { schema, object_name })
    }
}

} // verus!
