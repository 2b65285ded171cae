use vstd::prelude::*;
use crate::text::{dec_digits, push_usize};
use crate::token::{all_digits, collect_chars, digit_val, digits_value, is_digit};

verus! {

/// The types of numlang values.
#[derive(Debug, PartialEq, Eq, Hash)]
pub enum Type {
    I32,
    I64,
    F32,
    F64,
    Bool,
    Void,
    Array(Box<Type>, usize),
}

// ---------------------------------------------------------------------------
// Model: sizes and spellings of types
// ---------------------------------------------------------------------------

pub open spec fn spec_size(t: Type) -> nat
    decreases t,
{
    match t {
        Type::I32 | Type::F32 => 4,
        Type::I64 | Type::F64 => 8,
        Type::Bool => 1,
        Type::Void => 0,
        Type::Array(elem, len) => spec_size(*elem) * (len as nat),
    }
}

/// Every size computed while measuring `t` fits in a `usize`.
pub open spec fn size_fits(t: Type) -> bool
    decreases t,
{
    spec_size(t) <= usize::MAX && match t {
        Type::Array(elem, _) => size_fits(*elem),
        _ => true,
    }
}

pub open spec fn is_scalar(t: Type) -> bool {
    !(t is Array)
}

/// The spelling of a type: `i32`, `f64`, `bool`, `void`, `[T; N]`.
pub open spec fn type_text(t: Type) -> Seq<char>
    decreases t,
{
    match t {
        Type::I32 => seq!['i', '3', '2'],
        Type::I64 => seq!['i', '6', '4'],
        Type::F32 => seq!['f', '3', '2'],
        Type::F64 => seq!['f', '6', '4'],
        Type::Bool => seq!['b', 'o', 'o', 'l'],
        Type::Void => seq!['v', 'o', 'i', 'd'],
        Type::Array(elem, len) => seq!['['] + type_text(*elem) + seq![';', ' '] + dec_digits(
            len as nat,
        ) + seq![']'],
    }
}

// ---------------------------------------------------------------------------
// Model: the text accepted as a type name
// ---------------------------------------------------------------------------

/// White space as `char::is_whitespace` has it: the characters with the
/// Unicode `White_Space` property.
pub open spec fn is_ws(c: char) -> bool {
    ||| ('\t' <= c && c <= '\r')
    ||| c == ' '
    ||| c == '\u{85}'
    ||| c == '\u{A0}'
    ||| c == '\u{1680}'
    ||| ('\u{2000}' <= c && c <= '\u{200A}')
    ||| c == '\u{2028}'
    ||| c == '\u{2029}'
    ||| c == '\u{202F}'
    ||| c == '\u{205F}'
    ||| c == '\u{3000}'
}

pub open spec fn trim_start(s: Seq<char>) -> Seq<char>
    decreases s.len(),
{
    if s.len() > 0 && is_ws(s[0]) {
        trim_start(s.drop_first())
    } else {
        s
    }
}

pub open spec fn trim_end(s: Seq<char>) -> Seq<char>
    decreases s.len(),
{
    if s.len() > 0 && is_ws(s.last()) {
        trim_end(s.drop_last())
    } else {
        s
    }
}

pub open spec fn trim(s: Seq<char>) -> Seq<char> {
    trim_end(trim_start(s))
}

pub proof fn lemma_trim_len(s: Seq<char>)
    ensures
        trim_start(s).len() <= s.len(),
        trim_end(s).len() <= s.len(),
        trim(s).len() <= s.len(),
    decreases s.len(),
{
    if s.len() > 0 && is_ws(s[0]) {
        lemma_trim_len(s.drop_first());
    }
    if s.len() > 0 && is_ws(s.last()) {
        lemma_trim_len(s.drop_last());
    }
    lemma_trim_end_len(trim_start(s));
}

proof fn lemma_trim_end_len(s: Seq<char>)
    ensures
        trim_end(s).len() <= s.len(),
    decreases s.len(),
{
    if s.len() > 0 && is_ws(s.last()) {
        lemma_trim_end_len(s.drop_last());
    }
}

/// `k` is the position of the first `c` in `s`.
pub open spec fn is_first(s: Seq<char>, c: char, k: int) -> bool {
    &&& 0 <= k < s.len()
    &&& s[k] == c
    &&& forall|j: int| 0 <= j < k ==> s[j] != c
}

pub open spec fn first_index_of(s: Seq<char>, c: char) -> Option<int> {
    if exists|k: int| is_first(s, c, k) {
        Some(choose|k: int| is_first(s, c, k))
    } else {
        None
    }
}

/// A `usize` as accepted by `str::parse`: an optional `+` and at least one digit.
pub open spec fn usize_of(s: Seq<char>) -> Option<usize> {
    let d = if s.len() > 0 && s[0] == '+' {
        s.drop_first()
    } else {
        s
    };
    if d.len() > 0 && all_digits(d) && digits_value(d) <= usize::MAX {
        Some(digits_value(d) as usize)
    } else {
        None
    }
}

pub open spec fn scalar_of(s: Seq<char>) -> Option<Type> {
    if s == seq!['i', '3', '2'] {
        Some(Type::I32)
    } else if s == seq!['i', '6', '4'] {
        Some(Type::I64)
    } else if s == seq!['f', '3', '2'] {
        Some(Type::F32)
    } else if s == seq!['f', '6', '4'] {
        Some(Type::F64)
    } else if s == seq!['b', 'o', 'o', 'l'] {
        Some(Type::Bool)
    } else if s == seq!['v', 'o', 'i', 'd'] || s == seq!['(', ')'] {
        Some(Type::Void)
    } else {
        None
    }
}

/// The type named by `s`: after trimming whitespace, a primitive name, or
/// `[elem; len]` split at its first `;`.
pub open spec fn type_of_text(s: Seq<char>) -> Option<Type>
    decreases s.len(),
{
    let t = trim(s);
    if t.len() >= 2 && t[0] == '[' && t.last() == ']' {
        let inner = t.subrange(1, t.len() - 1);
        match first_index_of(inner, ';') {
            Some(k) => {
                proof {
                    lemma_trim_len(s);
                }
                if 0 <= k < inner.len() {
                    match type_of_text(inner.subrange(0, k)) {
                        Some(e) => match usize_of(trim(inner.subrange(k + 1, inner.len() as int))) {
                            Some(n) => Some(Type::Array(Box::new(e), n)),
                            None => None,
                        },
                        None => None,
                    }
                } else {
                    None
                }
            },
            None => scalar_of(t),
        }
    } else {
        scalar_of(t)
    }
}

// ---------------------------------------------------------------------------
// Executable operations
// ---------------------------------------------------------------------------

impl Type {
    pub fn is_numeric(&self) -> (b: bool)
        ensures
            b == (*self is I32 || *self is I64 || *self is F32 || *self is F64),
    {
        matches!(self, Type::I32 | Type::I64 | Type::F32 | Type::F64)
    }

    pub fn is_integer(&self) -> (b: bool)
        ensures
            b == (*self is I32 || *self is I64),
    {
        matches!(self, Type::I32 | Type::I64)
    }

    pub fn is_float(&self) -> (b: bool)
        ensures
            b == (*self is F32 || *self is F64),
    {
        matches!(self, Type::F32 | Type::F64)
    }

    pub fn is_array(&self) -> (b: bool)
        ensures
            b == (*self is Array),
    {
        matches!(self, Type::Array(_, _))
    }

    /// Size in bytes: 4 for 32-bit types, 8 for 64-bit types, 1 for `bool`,
    /// 0 for `void`, and element size times length for arrays.
    pub fn size_bytes(&self) -> (n: usize)
        requires
            size_fits(*self),
        ensures
            n == spec_size(*self),
        decreases *self,
    {
        match self {
            Type::I32 | Type::F32 => 4,
            Type::I64 | Type::F64 => 8,
            Type::Bool => 1,
            Type::Void => 0,
            Type::Array(elem, len) => {
                let e = elem.size_bytes();
                assert(e * *len == spec_size(*self));
                e * *len
            },
        }
    }

    pub fn element_type(&self) -> (r: Option<&Type>)
        ensures
            match *self {
                Type::Array(elem, _) => r == Some(&*elem),
                _ => r.is_none(),
            },
    {
        match self {
            Type::Array(elem, _) => Some(elem),
            _ => None,
        }
    }

    pub fn array_len(&self) -> (r: Option<usize>)
        ensures
            match *self {
                Type::Array(_, len) => r == Some(len),
                _ => r.is_none(),
            },
    {
        match self {
            Type::Array(_, len) => Some(*len),
            _ => None,
        }
    }

    /// A copy of the type.
    pub fn duplicate(&self) -> (t: Type)
        ensures
            t == *self,
        decreases *self,
    {
        match self {
            Type::I32 => Type::I32,
            Type::I64 => Type::I64,
            Type::F32 => Type::F32,
            Type::F64 => Type::F64,
            Type::Bool => Type::Bool,
            Type::Void => Type::Void,
            Type::Array(elem, len) => Type::Array(Box::new(elem.duplicate()), *len),
        }
    }

    /// Whether two types are the same.
    pub fn same(&self, other: &Type) -> (b: bool)
        ensures
            b == (*self == *other),
        decreases *self,
    {
        match (self, other) {
            (Type::I32, Type::I32) => true,
            (Type::I64, Type::I64) => true,
            (Type::F32, Type::F32) => true,
            (Type::F64, Type::F64) => true,
            (Type::Bool, Type::Bool) => true,
            (Type::Void, Type::Void) => true,
            (Type::Array(e1, n1), Type::Array(e2, n2)) => *n1 == *n2 && e1.same(e2),
            _ => false,
        }
    }

    /// The spelling of the type, as in `i64` or `[f64; 4]`.
    pub fn name(&self) -> (s: String)
        ensures
            s@ == type_text(*self),
    {
        let mut s = String::new();
        self.push_name(&mut s);
        assert(s@ =~= type_text(*self));
        s
    }

    pub fn push_name(&self, out: &mut String)
        ensures
            final(out)@ == old(out)@ + type_text(*self),
        decreases *self,
    {
        match self {
            Type::I32 => {
                proof { reveal_strlit("i32"); }
                out.append("i32");
            },
            Type::I64 => {
                proof { reveal_strlit("i64"); }
                out.append("i64");
            },
            Type::F32 => {
                proof { reveal_strlit("f32"); }
                out.append("f32");
            },
            Type::F64 => {
                proof { reveal_strlit("f64"); }
                out.append("f64");
            },
            Type::Bool => {
                proof { reveal_strlit("bool"); }
                out.append("bool");
            },
            Type::Void => {
                proof { reveal_strlit("void"); }
                out.append("void");
            },
            Type::Array(elem, len) => {
                proof {
                    reveal_strlit("[");
                    reveal_strlit("; ");
                    reveal_strlit("]");
                }
                out.append("[");
                elem.push_name(out);
                out.append("; ");
                push_usize(out, *len);
                out.append("]");
                assert(final(out)@ =~= old(out)@ + type_text(*self));
            },
        }
    }

    /// The type named by `name` (see `type_of_text`), or `None`.
    pub fn from_name(name: &str) -> (r: Option<Type>)
        ensures
            r == type_of_text(name@),
    {
        let chars = collect_chars(name);
        assert(chars@.subrange(0, chars@.len() as int) =~= name@);
        type_from_chars(&chars, 0, chars.len())
    }
}

fn char_is_ws(c: char) -> (b: bool)
    ensures
        b == is_ws(c),
{
    ('\t' <= c && c <= '\r') || c == ' ' || c == '\u{85}' || c == '\u{A0}' || c == '\u{1680}' || (
    '\u{2000}' <= c && c <= '\u{200A}') || c == '\u{2028}' || c == '\u{2029}' || c == '\u{202F}' || c
        == '\u{205F}' || c == '\u{3000}'
}

/// The trimmed bounds of `chars[lo..hi]`.
fn trim_bounds(chars: &Vec<char>, lo: usize, hi: usize) -> (r: (usize, usize))
    requires
        lo <= hi <= chars@.len(),
    ensures
        lo <= r.0 <= r.1 <= hi,
        trim(chars@.subrange(lo as int, hi as int)) == chars@.subrange(r.0 as int, r.1 as int),
{
    let mut a = lo;
    while a < hi && char_is_ws(chars[a])
        invariant
            lo <= a <= hi <= chars@.len(),
            trim_start(chars@.subrange(lo as int, hi as int)) == trim_start(
                chars@.subrange(a as int, hi as int),
            ),
        decreases hi - a,
    {
        assert(chars@.subrange(a as int, hi as int).drop_first() =~= chars@.subrange(
            a + 1,
            hi as int,
        ));
        a += 1;
    }
    let mut b = hi;
    while b > a && char_is_ws(chars[b - 1])
        invariant
            lo <= a <= b <= hi <= chars@.len(),
            trim_end(chars@.subrange(a as int, hi as int)) == trim_end(
                chars@.subrange(a as int, b as int),
            ),
        decreases b - a,
    {
        assert(chars@.subrange(a as int, b as int).drop_last() =~= chars@.subrange(
            a as int,
            b - 1,
        ));
        b -= 1;
    }
    (a, b)
}

/// The value of `chars[lo..hi]` as a `usize` literal (see `usize_of`).
#[verifier::loop_isolation(false)]
fn usize_from_chars(chars: &Vec<char>, lo: usize, hi: usize) -> (r: Option<usize>)
    requires
        lo <= hi <= chars@.len(),
    ensures
        r == usize_of(chars@.subrange(lo as int, hi as int)),
{
    let ghost s = chars@.subrange(lo as int, hi as int);
    assert(s.len() > 0 ==> s[0] == chars@[lo as int]);
    let mut start = lo;
    if lo < hi && chars[lo] == '+' {
        start = lo + 1;
        assert(s.drop_first() =~= chars@.subrange(start as int, hi as int));
    } else {
        assert(s =~= chars@.subrange(start as int, hi as int));
    }
    let ghost d = chars@.subrange(start as int, hi as int);
    if start >= hi {
        return None;
    }
    let mut value: usize = 0;
    let mut i = start;
    assert(chars@.subrange(start as int, start as int) =~= Seq::<char>::empty());
    while i < hi
        invariant
            start <= i <= hi <= chars@.len(),
            d == chars@.subrange(start as int, hi as int),
            value == digits_value(chars@.subrange(start as int, i as int)),
            forall|k: int| start <= k < i ==> is_digit(#[trigger] chars@[k]),
        decreases hi - i,
    {
        let c = chars[i];
        if !('0' <= c && c <= '9') {
            assert(d[i - start] == c);
            assert(!all_digits(d));
            return None;
        }
        let dv = (c as u32 - '0' as u32) as usize;
        let ghost next = chars@.subrange(start as int, i + 1);
        assert(next.drop_last() =~= chars@.subrange(start as int, i as int));
        assert(next.last() == c);
        if value > (usize::MAX - dv) / 10 {
            proof {
                if all_digits(d) {
                    lemma_prefix_value_le(d, (i + 1 - start) as int);
                    assert(d.subrange(0, (i + 1 - start) as int) =~= next);
                }
            }
            return None;
        }
        value = value * 10 + dv;
        i += 1;
    }
    proof {
        assert(chars@.subrange(start as int, hi as int) =~= d);
        assert forall|k: int| 0 <= k < d.len() implies is_digit(#[trigger] d[k]) by {
            assert(d[k] == chars@[start + k]);
        }
    }
    Some(value)
}

proof fn lemma_prefix_value_le(s: Seq<char>, k: int)
    requires
        0 <= k <= s.len(),
        all_digits(s),
    ensures
        digits_value(s.subrange(0, k)) <= digits_value(s),
    decreases s.len(),
{
    if k == s.len() {
        assert(s.subrange(0, k) =~= s);
    } else {
        let t = s.drop_last();
        assert(all_digits(t)) by {
            assert forall|i: int| 0 <= i < t.len() implies is_digit(#[trigger] t[i]) by {
                assert(t[i] == s[i]);
            }
        }
        lemma_prefix_value_le(t, k);
        assert(t.subrange(0, k) =~= s.subrange(0, k));
        lemma_value_nonneg(t);
        assert(is_digit(s[s.len() - 1]));
    }
}

proof fn lemma_value_nonneg(s: Seq<char>)
    requires
        all_digits(s),
    ensures
        digits_value(s) >= 0,
    decreases s.len(),
{
    if s.len() > 0 {
        let t = s.drop_last();
        assert(all_digits(t)) by {
            assert forall|i: int| 0 <= i < t.len() implies is_digit(#[trigger] t[i]) by {
                assert(t[i] == s[i]);
            }
        }
        lemma_value_nonneg(t);
        assert(is_digit(s[s.len() - 1]));
    }
}

/// The primitive type spelled exactly by `chars[lo..hi]`.
fn scalar_from_chars(chars: &Vec<char>, lo: usize, hi: usize) -> (r: Option<Type>)
    requires
        lo <= hi <= chars@.len(),
    ensures
        r == scalar_of(chars@.subrange(lo as int, hi as int)),
{
    let ghost s = chars@.subrange(lo as int, hi as int);
    let n = hi - lo;
    assert(s.len() == n);
    if n == 2 {
        let c0 = chars[lo];
        let c1 = chars[lo + 1];
        if c0 == '(' && c1 == ')' {
            assert(s =~= seq!['(', ')']);
            return Some(Type::Void);
        }
        assert(s[0] == c0 && s[1] == c1);
        return None;
    } else if n == 3 {
        let c0 = chars[lo];
        let c1 = chars[lo + 1];
        let c2 = chars[lo + 2];
        assert(s[0] == c0 && s[1] == c1 && s[2] == c2);
        if c0 == 'i' && c1 == '3' && c2 == '2' {
            assert(s =~= seq!['i', '3', '2']);
            return Some(Type::I32);
        } else if c0 == 'i' && c1 == '6' && c2 == '4' {
            assert(s =~= seq!['i', '6', '4']);
            return Some(Type::I64);
        } else if c0 == 'f' && c1 == '3' && c2 == '2' {
            assert(s =~= seq!['f', '3', '2']);
            return Some(Type::F32);
        } else if c0 == 'f' && c1 == '6' && c2 == '4' {
            assert(s =~= seq!['f', '6', '4']);
            return Some(Type::F64);
        }
        return None;
    } else if n == 4 {
        let c0 = chars[lo];
        let c1 = chars[lo + 1];
        let c2 = chars[lo + 2];
        let c3 = chars[lo + 3];
        assert(s[0] == c0 && s[1] == c1 && s[2] == c2 && s[3] == c3);
        if c0 == 'b' && c1 == 'o' && c2 == 'o' && c3 == 'l' {
            assert(s =~= seq!['b', 'o', 'o', 'l']);
            return Some(Type::Bool);
        } else if c0 == 'v' && c1 == 'o' && c2 == 'i' && c3 == 'd' {
            assert(s =~= seq!['v', 'o', 'i', 'd']);
            return Some(Type::Void);
        }
        return None;
    }
    None
}

/// The type named by `chars[lo..hi]` (see `type_of_text`).
fn type_from_chars(chars: &Vec<char>, lo: usize, hi: usize) -> (r: Option<Type>)
    requires
        lo <= hi <= chars@.len(),
    ensures
        r == type_of_text(chars@.subrange(lo as int, hi as int)),
    decreases hi - lo,
{
    let ghost s = chars@.subrange(lo as int, hi as int);
    let (a, b) = trim_bounds(chars, lo, hi);
    let ghost t = chars@.subrange(a as int, b as int);
    if b - a >= 2 && chars[a] == '[' && chars[b - 1] == ']' {
        assert(t[0] == '[' && t.last() == ']');
        let ghost inner = t.subrange(1, t.len() - 1);
        assert(inner =~= chars@.subrange(a + 1, b - 1));
        let mut k = a + 1;
        while k < b - 1 && chars[k] != ';'
            invariant
                a + 1 <= k <= b - 1,
                b <= chars@.len(),
                inner =~= chars@.subrange(a + 1, b - 1),
                forall|j: int| a + 1 <= j < k ==> chars@[j] != ';',
            decreases b - 1 - k,
        {
            k += 1;
        }
        if k == b - 1 {
            assert(first_index_of(inner, ';').is_none()) by {
                if exists|x: int| is_first(inner, ';', x) {
                    let x = choose|x: int| is_first(inner, ';', x);
                    assert(inner[x] == chars@[a + 1 + x]);
                }
            }
            return scalar_from_chars(chars, a, b);
        }
        let ghost kk = (k - a - 1) as int;
        assert(is_first(inner, ';', kk)) by {
            assert(inner[kk] == chars@[k as int]);
            assert forall|j: int| 0 <= j < kk implies inner[j] != ';' by {
                assert(inner[j] == chars@[a + 1 + j]);
            }
        }
        assert(first_index_of(inner, ';') == Some(kk)) by {
            let x = choose|x: int| is_first(inner, ';', x);
            if x < kk {
                assert(inner[x] != ';');
            }
            if kk < x {
                assert(inner[kk] != ';');
            }
        }
        assert(inner.subrange(0, kk) =~= chars@.subrange(a + 1, k as int));
        assert(inner.subrange(kk + 1, inner.len() as int) =~= chars@.subrange(k + 1, b - 1));
        match type_from_chars(chars, a + 1, k) {
            Some(e) => {
                let (c, d) = trim_bounds(chars, k + 1, b - 1);
                match usize_from_chars(chars, c, d) {
                    Some(n) => Some(Type::Array(Box::new(e), n)),
                    None => None,
                }
            },
            None => None,
        }
    } else {
        if b - a >= 2 {
            assert(t[0] == chars@[a as int] && t.last() == chars@[b - 1]);
        }
        scalar_from_chars(chars, a, b)
    }
}

// ---------------------------------------------------------------------------
// Laws
// ---------------------------------------------------------------------------

proof fn lemma_dec_digits_value(n: nat)
    ensures
        dec_digits(n).len() > 0,
        all_digits(dec_digits(n)),
        digits_value(dec_digits(n)) == n,
    decreases n,
{
    if n >= 10 {
        lemma_dec_digits_value(n / 10);
        let s = dec_digits(n);
        assert(s.drop_last() =~= dec_digits(n / 10));
        assert forall|i: int| 0 <= i < s.len() implies is_digit(#[trigger] s[i]) by {
            if i < s.len() - 1 {
                assert(s[i] == dec_digits(n / 10)[i]);
            }
        }
        assert(s.last() == crate::text::digit_char(n % 10));
        assert(digit_val(crate::text::digit_char(n % 10)) == n % 10);
        assert(digits_value(s) == digits_value(dec_digits(n / 10)) * 10 + (n % 10) as int);
    } else {
        assert(dec_digits(n).drop_last() =~= Seq::<char>::empty());
        assert(digits_value(Seq::<char>::empty()) == 0);
        assert(digit_val(crate::text::digit_char(n)) == n);
        assert(is_digit(dec_digits(n)[0]));
    }
}

/// Printing a primitive type, or an array of a primitive type, and reading the
/// text back with `Type::from_name` gives the same type.  (An array of arrays
/// does not read back: its text is split at the first `;`, which lies inside
/// the element type.)
pub proof fn lemma_type_text_roundtrip(t: Type)
    requires
        is_scalar(t) || (t matches Type::Array(e, _) && is_scalar(*e)),
    ensures
        type_of_text(type_text(t)) == Some(t),
{
    match t {
        Type::Array(e, n) => {
            let et = type_text(*e);
            let dg = dec_digits(n as nat);
            lemma_dec_digits_value(n as nat);
            let s = type_text(t);
            assert(s == seq!['['] + et + seq![';', ' '] + dg + seq![']']);
            lemma_scalar_text(*e);
            assert(!is_ws(s[0]));
            assert(s.last() == ']');
            assert(trim_start(s) == s);
            assert(trim_end(s) == s);
            let inner = s.subrange(1, s.len() - 1);
            assert(inner =~= et + seq![';', ' '] + dg);
            let k = et.len() as int;
            assert(is_first(inner, ';', k)) by {
                assert(inner[k] == ';');
                assert forall|j: int| 0 <= j < k implies inner[j] != ';' by {
                    assert(inner[j] == et[j]);
                }
            }
            assert(first_index_of(inner, ';') == Some(k)) by {
                let x = choose|x: int| is_first(inner, ';', x);
                if x < k {
                    assert(inner[x] != ';');
                }
                if k < x {
                    assert(inner[k] != ';');
                }
            }
            assert(inner.subrange(0, k) =~= et);
            let rest = inner.subrange(k + 1, inner.len() as int);
            assert(rest =~= seq![' '] + dg);
            assert(rest.drop_first() =~= dg);
            assert(is_digit(dg[0]));
            assert(trim_start(dg) == dg);
            assert(trim_start(rest) == trim_start(dg));
            assert(is_digit(dg.last()));
            assert(trim_end(dg) == dg);
            assert(trim(rest) == dg);
            assert(!(dg.len() > 0 && dg[0] == '+'));
        },
        _ => {
            lemma_scalar_text(t);
        },
    }
}

proof fn lemma_scalar_text(t: Type)
    requires
        is_scalar(t),
    ensures
        type_of_text(type_text(t)) == Some(t),
        forall|j: int| 0 <= j < type_text(t).len() ==> #[trigger] type_text(t)[j] != ';',
        type_text(t).len() > 0,
        !is_ws(type_text(t)[0]),
        type_text(t)[0] != '[',
{
    let s = type_text(t);
    assert(!is_ws(s[0]));
    assert(!is_ws(s.last()));
    assert(trim_start(s) == s);
    assert(trim_end(s) == s);
    assert(s[0] != '[');
}

} // verus!
