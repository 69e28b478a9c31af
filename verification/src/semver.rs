//! The semantic-version model: an ordered version with optional pre-release
//! identifiers, parsing and display, and the bump rules that advance it.

use vstd::prelude::*;

use crate::chars::{
    all_digits, is_digit, is_ident_char, chars_to_string,
    range_to_string, str_eq, str_to_chars,
};
use crate::errors::Error;

verus! {

/// The rules that can be used when bumping the current version of a project.
///
/// `Pre` carries the pre-release label (for example `rc`), so that
/// `1.2.3-rc.4` becomes `1.2.3-rc.5` and `1.2.3` becomes `1.2.3-rc.0`.
#[derive(Debug, Clone)]
pub enum Rule {
    /// Increment the major component and reset all other components.
    Major,
    /// Increment the minor component and reset all lesser components.
    Minor,
    /// Increment the patch component and reset all lesser components.
    Patch,
    /// Increment the pre-release component, or add one if missing.
    Pre(String),
    /// Remove the pre-release component.
    Release,
}

/// One pre-release identifier: purely numeric, or alphanumeric.
#[derive(Debug, Clone)]
pub enum Ident {
    Num(u64),
    Alpha(String),
}

/// A semantic version: `major.minor.patch` with an optional ordered list of
/// pre-release identifiers.
#[derive(Debug, Clone)]
pub struct Version {
    pub major: u64,
    pub minor: u64,
    pub patch: u64,
    pub pre: Vec<Ident>,
}

/// Mathematical model of an identifier.
#[verifier::ext_equal]
pub enum IdentV {
    Num(nat),
    Alpha(Seq<char>),
}

/// Mathematical model of a version.
#[verifier::ext_equal]
pub struct VersionV {
    pub major: nat,
    pub minor: nat,
    pub patch: nat,
    pub pre: Seq<IdentV>,
}

/// Mathematical model of a bump rule.
pub enum RuleV {
    Major,
    Minor,
    Patch,
    Pre(Seq<char>),
    Release,
}

impl View for Ident {
    type V = IdentV;

    open spec fn view(&self) -> IdentV {
        match self {
            Ident::Num(n) => IdentV::Num(*n as nat),
            Ident::Alpha(s) => IdentV::Alpha(s@),
        }
    }
}

impl View for Version {
    type V = VersionV;

    open spec fn view(&self) -> VersionV {
        VersionV {
            major: self.major as nat,
            minor: self.minor as nat,
            patch: self.patch as nat,
            pre: self.pre@.map_values(|id: Ident| id@),
        }
    }
}

impl View for Rule {
    type V = RuleV;

    open spec fn view(&self) -> RuleV {
        match self {
            Rule::Major => RuleV::Major,
            Rule::Minor => RuleV::Minor,
            Rule::Patch => RuleV::Patch,
            Rule::Pre(label) => RuleV::Pre(label@),
            Rule::Release => RuleV::Release,
        }
    }
}

// ------------------------------------------------------------------
// Well-formedness
// ------------------------------------------------------------------
/// A valid alphanumeric identifier: nonempty, only identifier characters,
/// and at least one non-digit (else it would be a numeric identifier).
pub open spec fn wf_alpha(s: Seq<char>) -> bool {
    &&& s.len() > 0
    &&& forall|i: int| 0 <= i < s.len() ==> is_ident_char(#[trigger] s[i])
    &&& !all_digits(s)
}

pub open spec fn wf_ident(id: IdentV) -> bool {
    match id {
        IdentV::Num(n) => n <= u64::MAX,
        IdentV::Alpha(s) => wf_alpha(s),
    }
}

pub open spec fn wf_version(v: VersionV) -> bool {
    &&& v.major <= u64::MAX
    &&& v.minor <= u64::MAX
    &&& v.patch <= u64::MAX
    &&& forall|i: int| 0 <= i < v.pre.len() ==> wf_ident(#[trigger] v.pre[i])
}

// ------------------------------------------------------------------
// Canonical rendering
// ------------------------------------------------------------------
/// The digit character for a value below ten.
pub open spec fn digit_char(n: nat) -> char {
    if n == 0 { '0' }
    else if n == 1 { '1' }
    else if n == 2 { '2' }
    else if n == 3 { '3' }
    else if n == 4 { '4' }
    else if n == 5 { '5' }
    else if n == 6 { '6' }
    else if n == 7 { '7' }
    else if n == 8 { '8' }
    else { '9' }
}

/// The numeric value of a digit character.
pub open spec fn digit_val(c: char) -> nat {
    if c == '0' { 0 }
    else if c == '1' { 1 }
    else if c == '2' { 2 }
    else if c == '3' { 3 }
    else if c == '4' { 4 }
    else if c == '5' { 5 }
    else if c == '6' { 6 }
    else if c == '7' { 7 }
    else if c == '8' { 8 }
    else { 9 }
}

/// The decimal rendering of a number, without leading zeros.
pub open spec fn dec_chars(n: nat) -> Seq<char>
    decreases n,
{
    if n < 10 {
        seq![digit_char(n)]
    } else {
        dec_chars(n / 10) + seq![digit_char(n % 10)]
    }
}

/// The value of a sequence of digit characters.
pub open spec fn digits_val(s: Seq<char>) -> nat
    decreases s.len(),
{
    if s.len() == 0 {
        0
    } else {
        digits_val(s.drop_last()) * 10 + digit_val(s.last())
    }
}

pub open spec fn ident_chars(id: IdentV) -> Seq<char> {
    match id {
        IdentV::Num(n) => dec_chars(n),
        IdentV::Alpha(s) => s,
    }
}

/// The dot-joined rendering of a pre-release identifier list.
pub open spec fn pre_chars(pre: Seq<IdentV>) -> Seq<char>
    decreases pre.len(),
{
    if pre.len() == 0 {
        Seq::empty()
    } else if pre.len() == 1 {
        ident_chars(pre[0])
    } else {
        ident_chars(pre[0]) + seq!['.'] + pre_chars(pre.drop_first())
    }
}

/// The canonical text of a version: `major.minor.patch` and, when a
/// pre-release is present, `-` followed by its dot-joined identifiers.
pub open spec fn version_chars(v: VersionV) -> Seq<char> {
    dec_chars(v.major) + seq!['.'] + dec_chars(v.minor) + seq!['.'] + dec_chars(v.patch) + (
    if v.pre.len() == 0 {
        Seq::<char>::empty()
    } else {
        seq!['-'] + pre_chars(v.pre)
    })
}

// ------------------------------------------------------------------
// Semver ordering
// ------------------------------------------------------------------
/// Lexicographic order on character sequences, by scalar value.
pub open spec fn lex_lt(a: Seq<char>, b: Seq<char>) -> bool
    decreases a.len(),
{
    if a.len() == 0 {
        b.len() > 0
    } else if b.len() == 0 {
        false
    } else if a[0] != b[0] {
        a[0] < b[0]
    } else {
        lex_lt(a.drop_first(), b.drop_first())
    }
}

/// Semver order on single identifiers: numeric sorts below alphanumeric.
pub open spec fn ident_lt(a: IdentV, b: IdentV) -> bool {
    match (a, b) {
        (IdentV::Num(x), IdentV::Num(y)) => x < y,
        (IdentV::Num(_), IdentV::Alpha(_)) => true,
        (IdentV::Alpha(_), IdentV::Num(_)) => false,
        (IdentV::Alpha(x), IdentV::Alpha(y)) => lex_lt(x, y),
    }
}

/// Semver order on nonempty identifier lists: element-wise, a strict prefix
/// sorting below its extensions.
pub open spec fn idents_lt(a: Seq<IdentV>, b: Seq<IdentV>) -> bool
    decreases a.len(),
{
    if a.len() == 0 {
        b.len() > 0
    } else if b.len() == 0 {
        false
    } else if a[0] != b[0] {
        ident_lt(a[0], b[0])
    } else {
        idents_lt(a.drop_first(), b.drop_first())
    }
}

/// The strict semver order.  Versions compare by their numeric triple; with
/// equal triples a version without pre-release is the greater, and two
/// pre-releases compare by their identifier lists.
pub open spec fn version_lt(a: VersionV, b: VersionV) -> bool {
    if a.major != b.major {
        a.major < b.major
    } else if a.minor != b.minor {
        a.minor < b.minor
    } else if a.patch != b.patch {
        a.patch < b.patch
    } else if a.pre.len() == 0 {
        false
    } else if b.pre.len() == 0 {
        true
    } else {
        idents_lt(a.pre, b.pre)
    }
}

/// Lexicographic order is trichotomous: of two character sequences, one is
/// smaller, or they are equal.
pub proof fn lemma_lex_trichotomy(x: Seq<char>, y: Seq<char>)
    ensures
        lex_lt(x, y) || lex_lt(y, x) || x == y,
    decreases x.len(),
{
    if x.len() == 0 || y.len() == 0 {
        if x.len() == 0 && y.len() == 0 {
            assert(x =~= y);
        }
    } else if x[0] == y[0] {
        lemma_lex_trichotomy(x.drop_first(), y.drop_first());
        if x.drop_first() == y.drop_first() {
            assert(x.len() == y.len()) by {
                assert(x.drop_first().len() == x.len() - 1);
                assert(y.drop_first().len() == y.len() - 1);
            }
            assert forall|i: int| 0 <= i < x.len() implies x[i] == y[i] by {
                if i >= 1 {
                    assert(x[i] == x.drop_first()[i - 1]);
                    assert(y[i] == y.drop_first()[i - 1]);
                }
            }
            assert(x =~= y);
        }
    }
}

/// Lexicographic order is transitive.
pub proof fn lemma_lex_trans(x: Seq<char>, y: Seq<char>, z: Seq<char>)
    requires
        lex_lt(x, y),
        lex_lt(y, z),
    ensures
        lex_lt(x, z),
    decreases x.len(),
{
    if x.len() == 0 {
    } else if x[0] == y[0] {
        if y[0] == z[0] {
            lemma_lex_trans(x.drop_first(), y.drop_first(), z.drop_first());
        }
    } else {
        if y[0] != z[0] {
        }
    }
}

/// Identifier order is trichotomous.
pub proof fn lemma_ident_trichotomy(a: IdentV, b: IdentV)
    ensures
        ident_lt(a, b) || ident_lt(b, a) || a == b,
{
    match (a, b) {
        (IdentV::Alpha(x), IdentV::Alpha(y)) => {
            lemma_lex_trichotomy(x, y);
        },
        _ => {},
    }
}

/// Identifier order is transitive.
pub proof fn lemma_ident_trans(a: IdentV, b: IdentV, c: IdentV)
    requires
        ident_lt(a, b),
        ident_lt(b, c),
    ensures
        ident_lt(a, c),
{
    match (a, b, c) {
        (IdentV::Alpha(x), IdentV::Alpha(y), IdentV::Alpha(z)) => {
            lemma_lex_trans(x, y, z);
        },
        _ => {},
    }
}

/// Identifier-list order is trichotomous.
pub proof fn lemma_idents_trichotomy(a: Seq<IdentV>, b: Seq<IdentV>)
    ensures
        idents_lt(a, b) || idents_lt(b, a) || a == b,
    decreases a.len(),
{
    if a.len() == 0 || b.len() == 0 {
        if a.len() == 0 && b.len() == 0 {
            assert(a =~= b);
        }
    } else if a[0] == b[0] {
        lemma_idents_trichotomy(a.drop_first(), b.drop_first());
        if a.drop_first() == b.drop_first() {
            assert(a.len() == b.len()) by {
                assert(a.drop_first().len() == a.len() - 1);
                assert(b.drop_first().len() == b.len() - 1);
            }
            assert forall|i: int| 0 <= i < a.len() implies a[i] == b[i] by {
                if i >= 1 {
                    assert(a[i] == a.drop_first()[i - 1]);
                    assert(b[i] == b.drop_first()[i - 1]);
                }
            }
            assert(a =~= b);
        }
    } else {
        lemma_ident_trichotomy(a[0], b[0]);
    }
}

/// Identifier-list order is transitive.
pub proof fn lemma_idents_trans(a: Seq<IdentV>, b: Seq<IdentV>, c: Seq<IdentV>)
    requires
        idents_lt(a, b),
        idents_lt(b, c),
    ensures
        idents_lt(a, c),
    decreases a.len(),
{
    if a.len() == 0 {
    } else if a[0] == b[0] {
        if b[0] == c[0] {
            lemma_idents_trans(a.drop_first(), b.drop_first(), c.drop_first());
        }
    } else {
        if b[0] != c[0] {
            lemma_ident_trans(a[0], b[0], c[0]);
            if a[0] == c[0] {
                lemma_ident_irreflexive(a[0]);
            }
        }
    }
}

/// The semver order is trichotomous: of two versions, one is strictly
/// smaller, or they are equal in every component.
pub proof fn lemma_version_trichotomy(a: VersionV, b: VersionV)
    ensures
        version_lt(a, b) || version_lt(b, a) || a == b,
{
    if a.major == b.major && a.minor == b.minor && a.patch == b.patch {
        if a.pre.len() != 0 && b.pre.len() != 0 {
            lemma_idents_trichotomy(a.pre, b.pre);
            if a.pre == b.pre {
                assert(a =~= b);
            }
        } else if a.pre.len() == 0 && b.pre.len() == 0 {
            assert(a.pre =~= b.pre);
            assert(a =~= b);
        }
    }
}

/// The semver order is transitive.
pub proof fn lemma_version_trans(a: VersionV, b: VersionV, c: VersionV)
    requires
        version_lt(a, b),
        version_lt(b, c),
    ensures
        version_lt(a, c),
{
    if a.major == b.major && b.major == c.major && a.minor == b.minor && b.minor == c.minor
        && a.patch == b.patch && b.patch == c.patch {
        if a.pre.len() != 0 && b.pre.len() != 0 && c.pre.len() != 0 {
            lemma_idents_trans(a.pre, b.pre, c.pre);
        }
    }
}

/// The semver order is irreflexive: no version is below itself.
pub proof fn lemma_version_irreflexive(a: VersionV)
    ensures
        !version_lt(a, a),
{
    lemma_idents_irreflexive(a.pre);
}

proof fn lemma_idents_irreflexive(a: Seq<IdentV>)
    ensures
        !idents_lt(a, a),
    decreases a.len(),
{
    if a.len() > 0 {
        lemma_ident_irreflexive(a[0]);
        lemma_idents_irreflexive(a.drop_first());
    }
}

proof fn lemma_ident_irreflexive(a: IdentV)
    ensures
        !ident_lt(a, a),
{
    match a {
        IdentV::Alpha(x) => {
            lemma_lex_irreflexive(x);
        },
        _ => {},
    }
}

proof fn lemma_lex_irreflexive(x: Seq<char>)
    ensures
        !lex_lt(x, x),
    decreases x.len(),
{
    if x.len() > 0 {
        lemma_lex_irreflexive(x.drop_first());
    }
}

/// The version with the pre-release removed.
pub open spec fn strip_pre(v: VersionV) -> VersionV {
    VersionV { major: v.major, minor: v.minor, patch: v.patch, pre: Seq::empty() }
}

// ------------------------------------------------------------------
// Parsing
// ------------------------------------------------------------------
/// End of the run of digit characters starting at `i`.
pub open spec fn scan_digits(s: Seq<char>, i: int) -> int
    decreases s.len() - i,
    when 0 <= i <= s.len()
{
    if i < s.len() && is_digit(s[i]) {
        scan_digits(s, i + 1)
    } else {
        i
    }
}

/// End of the run of identifier characters starting at `i`.
pub open spec fn scan_ident(s: Seq<char>, i: int) -> int
    decreases s.len() - i,
    when 0 <= i <= s.len()
{
    if i < s.len() && is_ident_char(s[i]) {
        scan_ident(s, i + 1)
    } else {
        i
    }
}

pub proof fn lemma_scan_digits(s: Seq<char>, i: int)
    requires
        0 <= i <= s.len(),
    ensures
        i <= scan_digits(s, i) <= s.len(),
        forall|j: int| i <= j < scan_digits(s, i) ==> is_digit(#[trigger] s[j]),
        scan_digits(s, i) < s.len() ==> !is_digit(s[scan_digits(s, i)]),
    decreases s.len() - i,
{
    if i < s.len() && is_digit(s[i]) {
        lemma_scan_digits(s, i + 1);
    }
}

pub proof fn lemma_scan_ident(s: Seq<char>, i: int)
    requires
        0 <= i <= s.len(),
    ensures
        i <= scan_ident(s, i) <= s.len(),
        forall|j: int| i <= j < scan_ident(s, i) ==> is_ident_char(#[trigger] s[j]),
        scan_ident(s, i) < s.len() ==> !is_ident_char(s[scan_ident(s, i)]),
    decreases s.len() - i,
{
    if i < s.len() && is_ident_char(s[i]) {
        lemma_scan_ident(s, i + 1);
    }
}

/// A digit run is scanned to exactly its known end.
pub proof fn lemma_scan_digits_exact(s: Seq<char>, i: int, k: int)
    requires
        0 <= i <= k <= s.len(),
        forall|j: int| i <= j < k ==> is_digit(#[trigger] s[j]),
        k < s.len() ==> !is_digit(s[k]),
    ensures
        scan_digits(s, i) == k,
    decreases k - i,
{
    if i < k {
        lemma_scan_digits_exact(s, i + 1, k);
    }
}

/// An identifier run is scanned to exactly its known end.
pub proof fn lemma_scan_ident_exact(s: Seq<char>, i: int, k: int)
    requires
        0 <= i <= k <= s.len(),
        forall|j: int| i <= j < k ==> is_ident_char(#[trigger] s[j]),
        k < s.len() ==> !is_ident_char(s[k]),
    ensures
        scan_ident(s, i) == k,
    decreases k - i,
{
    if i < k {
        lemma_scan_ident_exact(s, i + 1, k);
    }
}

/// Parse the numeric field starting at `i`: a nonempty digit run without a
/// leading zero whose value fits in a `u64`.  Returns the value and the
/// position after the run.
pub open spec fn parse_num(s: Seq<char>, i: int) -> Option<(nat, int)>
    recommends
        0 <= i <= s.len(),
{
    let j = scan_digits(s, i);
    if j == i {
        None
    } else if s[i] == '0' && j > i + 1 {
        None
    } else if digits_val(s.subrange(i, j)) > u64::MAX {
        None
    } else {
        Some((digits_val(s.subrange(i, j)), j))
    }
}

/// Classify one pre-release chunk: all digits makes a numeric identifier
/// (no leading zero, must fit in a `u64`), anything else an alphanumeric one.
pub open spec fn classify_ident(chunk: Seq<char>) -> Option<IdentV> {
    if chunk.len() == 0 {
        None
    } else if !(forall|i: int| 0 <= i < chunk.len() ==> is_ident_char(#[trigger] chunk[i])) {
        None
    } else if all_digits(chunk) {
        if chunk[0] == '0' && chunk.len() > 1 {
            None
        } else if digits_val(chunk) > u64::MAX {
            None
        } else {
            Some(IdentV::Num(digits_val(chunk)))
        }
    } else {
        Some(IdentV::Alpha(chunk))
    }
}

/// Parse the dot-separated pre-release identifiers from `i` to the end.
pub open spec fn parse_idents(s: Seq<char>, i: int) -> Option<Seq<IdentV>>
    decreases s.len() - i,
    when 0 <= i <= s.len()
    via parse_idents_decreases
{
    let j = scan_ident(s, i);
    match classify_ident(s.subrange(i, j)) {
        None => None,
        Some(id) => {
            if j == s.len() {
                Some(seq![id])
            } else if s[j] == '.' {
                match parse_idents(s, j + 1) {
                    None => None,
                    Some(rest) => Some(seq![id] + rest),
                }
            } else {
                None
            }
        },
    }
}

#[via_fn]
proof fn parse_idents_decreases(s: Seq<char>, i: int) {
    lemma_scan_ident(s, i);
}

/// Parse a complete version text: `major.minor.patch` optionally followed
/// by `-` and the pre-release identifiers, with nothing after.
pub open spec fn spec_parse(s: Seq<char>) -> Option<VersionV> {
    match parse_num(s, 0) {
        None => None,
        Some((major, i1)) => if i1 < s.len() && s[i1] == '.' {
            match parse_num(s, i1 + 1) {
                None => None,
                Some((minor, i2)) => if i2 < s.len() && s[i2] == '.' {
                    match parse_num(s, i2 + 1) {
                        None => None,
                        Some((patch, i3)) => if i3 == s.len() {
                            Some(VersionV { major, minor, patch, pre: Seq::empty() })
                        } else if s[i3] == '-' {
                            match parse_idents(s, i3 + 1) {
                                None => None,
                                Some(pre) => Some(VersionV { major, minor, patch, pre }),
                            }
                        } else {
                            None
                        },
                    }
                } else {
                    None
                },
            }
        } else {
            None
        },
    }
}

// ------------------------------------------------------------------
// Decimal rendering and parsing agree
// ------------------------------------------------------------------
/// The decimal rendering of a number is a nonempty digit run without a
/// leading zero, and evaluates back to the number.
pub proof fn lemma_dec_chars(n: nat)
    ensures
        dec_chars(n).len() > 0,
        all_digits(dec_chars(n)),
        dec_chars(n).len() > 1 ==> dec_chars(n)[0] != '0',
        n >= 10 <==> dec_chars(n).len() > 1,
        digits_val(dec_chars(n)) == n,
    decreases n,
{
    if n < 10 {
        let s = seq![digit_char(n)];
        assert(s.drop_last() =~= Seq::<char>::empty());
        assert(s.last() == digit_char(n));
        assert(digits_val(s.drop_last()) == 0);
        assert(digits_val(s) == digit_val(digit_char(n)));
    } else {
        lemma_dec_chars(n / 10);
        let s = dec_chars(n / 10) + seq![digit_char(n % 10)];
        assert(s.drop_last() =~= dec_chars(n / 10));
        assert(s.last() == digit_char(n % 10));
        assert(digit_val(digit_char(n % 10)) == n % 10);
        vstd::arithmetic::div_mod::lemma_fundamental_div_mod(n as int, 10);
        assert(digits_val(s) == (n / 10) * 10 + n % 10);
        assert(s[0] == dec_chars(n / 10)[0]);
        assert(dec_chars(n / 10).len() == 1 ==> dec_chars(n / 10)[0] == digit_char(n / 10));
        assert(n / 10 >= 1) by {
            vstd::arithmetic::div_mod::lemma_fundamental_div_mod(n as int, 10);
        }
    }
}

/// A nonempty digit run without a leading zero has a positive value unless
/// it is the single digit zero.
pub proof fn lemma_digits_val_pos(s: Seq<char>)
    requires
        s.len() > 0,
        all_digits(s),
        s.len() > 1 ==> s[0] != '0',
        !(s.len() == 1 && s[0] == '0'),
    ensures
        digits_val(s) >= 1,
    decreases s.len(),
{
    if s.len() == 1 {
        assert(s.drop_last() =~= Seq::<char>::empty());
        assert(digits_val(s.drop_last()) == 0);
        assert(digits_val(s) == digits_val(s.drop_last()) * 10 + digit_val(s.last()));
        assert(s.last() == s[0]);
        assert(digit_val(s[0]) >= 1);
    } else {
        let d = s.drop_last();
        assert(all_digits(d)) by {
            assert(forall|i: int| 0 <= i < d.len() ==> d[i] == s[i]);
        }
        if d.len() == 1 && d[0] == '0' {
            assert(s[0] == '0');
            assert(false);
        }
        lemma_digits_val_pos(d);
    }
}

/// Rendering the value of a canonical digit run gives the run back.
pub proof fn lemma_digits_to_dec(s: Seq<char>)
    requires
        s.len() > 0,
        all_digits(s),
        s.len() > 1 ==> s[0] != '0',
    ensures
        dec_chars(digits_val(s)) == s,
    decreases s.len(),
{
    if s.len() == 1 {
        assert(s.drop_last() =~= Seq::<char>::empty());
        assert(digits_val(Seq::<char>::empty()) == 0);
        assert(digits_val(s) == digits_val(s.drop_last()) * 10 + digit_val(s.last()));
        assert(s.last() == s[0]);
        let v = digits_val(s);
        assert(v == digit_val(s[0]));
        assert(v < 10);
        assert(digit_char(digit_val(s[0])) == s[0]);
        assert(dec_chars(v) =~= s);
    } else {
        let d = s.drop_last();
        assert(all_digits(d)) by {
            assert(forall|i: int| 0 <= i < d.len() ==> d[i] == s[i]);
        }
        assert(d[0] == s[0]);
        lemma_digits_to_dec(d);
        lemma_digits_val_pos(d);
        let v = digits_val(s);
        let dv = digits_val(d);
        assert(v == dv * 10 + digit_val(s.last()));
        vstd::arithmetic::div_mod::lemma_fundamental_div_mod_converse(
            v as int,
            10,
            dv as int,
            digit_val(s.last()) as int,
        );
        assert(v / 10 == dv);
        assert(v % 10 == digit_val(s.last()));
        assert(v >= 10);
        assert(dec_chars(v) == dec_chars(dv) + seq![digit_char(digit_val(s.last()))]);
        assert(digit_char(digit_val(s.last())) == s.last());
        assert(dec_chars(v) =~= s);
    }
}

/// A digit run evaluates to at least the value of any of its prefixes.
pub proof fn lemma_digits_val_prefix(s: Seq<char>, k: int)
    requires
        0 <= k <= s.len(),
    ensures
        digits_val(s) >= digits_val(s.subrange(0, k)),
    decreases s.len(),
{
    if k == s.len() {
        assert(s.subrange(0, k) =~= s);
    } else {
        let d = s.drop_last();
        assert(s.subrange(0, k) =~= d.subrange(0, k));
        lemma_digits_val_prefix(d, k);
        assert(digits_val(d) * 10 >= digits_val(d)) by (nonlinear_arith);
    }
}

// ------------------------------------------------------------------
// Parsing is exactly the inverse of rendering
// ------------------------------------------------------------------
/// What a successful pre-release parse yields: well-formed identifiers whose
/// rendering is exactly the remaining text.
pub proof fn lemma_parse_idents_sound(s: Seq<char>, i: int)
    requires
        0 <= i <= s.len(),
        parse_idents(s, i) is Some,
    ensures
        parse_idents(s, i)->Some_0.len() > 0,
        forall|k: int|
            0 <= k < parse_idents(s, i)->Some_0.len() ==> wf_ident(
                #[trigger] parse_idents(s, i)->Some_0[k],
            ),
        pre_chars(parse_idents(s, i)->Some_0) == s.subrange(i, s.len() as int),
    decreases s.len() - i,
{
    lemma_scan_ident(s, i);
    let j = scan_ident(s, i);
    let chunk = s.subrange(i, j);
    let id = classify_ident(chunk)->Some_0;
    assert(wf_ident(id) && ident_chars(id) == chunk) by {
        if all_digits(chunk) {
            lemma_digits_to_dec(chunk);
        }
    }
    let pre = parse_idents(s, i)->Some_0;
    if j == s.len() {
        assert(pre == seq![id]);
        assert(pre_chars(pre) == ident_chars(id));
        assert(chunk =~= s.subrange(i, s.len() as int));
    } else {
        lemma_parse_idents_sound(s, j + 1);
        let rest = parse_idents(s, j + 1)->Some_0;
        assert(pre == seq![id] + rest);
        assert(pre[0] == id);
        assert(pre.drop_first() =~= rest);
        assert(pre.len() > 1);
        assert(pre_chars(pre) == ident_chars(id) + seq!['.'] + pre_chars(rest));
        assert(forall|k: int| 0 <= k < rest.len() ==> pre[k + 1] == rest[k]);
        assert(pre_chars(pre) =~= s.subrange(i, s.len() as int)) by {
            assert(pre_chars(rest) == s.subrange(j + 1, s.len() as int));
            assert(s[j] == '.');
        }
    }
}

/// What a successful parse yields: a well-formed version whose canonical
/// text is exactly the input.  Parsing accepts only canonical texts.
pub proof fn lemma_parse_sound(s: Seq<char>)
    requires
        spec_parse(s) is Some,
    ensures
        wf_version(spec_parse(s)->Some_0),
        version_chars(spec_parse(s)->Some_0) == s,
{
    let v = spec_parse(s)->Some_0;
    lemma_scan_digits(s, 0);
    let (major, i1) = parse_num(s, 0)->Some_0;
    lemma_digits_to_dec(s.subrange(0, i1));
    lemma_scan_digits(s, i1 + 1);
    let (minor, i2) = parse_num(s, i1 + 1)->Some_0;
    lemma_digits_to_dec(s.subrange(i1 + 1, i2));
    lemma_scan_digits(s, i2 + 1);
    let (patch, i3) = parse_num(s, i2 + 1)->Some_0;
    lemma_digits_to_dec(s.subrange(i2 + 1, i3));
    if i3 == s.len() {
        assert(version_chars(v) =~= s);
    } else {
        lemma_parse_idents_sound(s, i3 + 1);
        assert(version_chars(v) =~= s);
    }
}

/// Scanning the rendering of a well-formed identifier list finds the first
/// chunk, and parsing it from any position recovers the list.
#[verifier::rlimit(60)]
pub proof fn lemma_render_idents_parse(s: Seq<char>, i: int, pre: Seq<IdentV>)
    requires
        0 <= i <= s.len(),
        pre.len() > 0,
        forall|k: int| 0 <= k < pre.len() ==> wf_ident(#[trigger] pre[k]),
        s.subrange(i, s.len() as int) == pre_chars(pre),
    ensures
        parse_idents(s, i) == Some(pre),
    decreases pre.len(),
{
    let id = pre[0];
    let chunk = ident_chars(id);
    assert(chunk.len() > 0 && (forall|k: int| 0 <= k < chunk.len() ==> is_ident_char(
        #[trigger] chunk[k],
    ))) by {
        if id is Num {
            lemma_dec_chars(id->Num_0);
        }
    }
    if pre.len() == 1 {
        assert(pre_chars(pre) == chunk);
        assert(s.len() - i == chunk.len());
        assert(forall|k: int| i <= k < s.len() ==> s[k] == chunk[k - i]);
        lemma_scan_ident_exact(s, i, s.len() as int);
        assert(s.subrange(i, s.len() as int) =~= chunk);
        assert(classify_ident(chunk) == Some(id)) by {
            match id {
                IdentV::Num(n) => {
                    lemma_dec_chars(n);
                },
                IdentV::Alpha(a) => {
                    assert(!all_digits(chunk));
                },
            }
        }
        assert(parse_idents(s, i) == Some(seq![id]));
        assert(seq![id] =~= pre);
    } else {
        let rest = pre.drop_first();
        let tail = pre_chars(rest);
        assert(pre_chars(pre) == chunk + seq!['.'] + tail);
        assert(forall|k: int| i <= k < s.len() ==> s[k] == pre_chars(pre)[k - i]) by {
            assert(forall|k: int| i <= k < s.len() ==> s[k] == s.subrange(i, s.len() as int)[k
                - i]);
        }
        let j = i + chunk.len();
        assert(s.len() == i + chunk.len() + 1 + tail.len());
        assert(forall|k: int| i <= k < j ==> s[k] == chunk[k - i]) by {
            assert(forall|k: int| 0 <= k < chunk.len() ==> pre_chars(pre)[k] == chunk[k]);
        }
        assert(pre_chars(pre)[chunk.len() as int] == '.');
        assert(s[j] == '.');
        lemma_scan_ident_exact(s, i, j);
        assert(s.subrange(i, j) =~= chunk);
        assert(classify_ident(chunk) == Some(id)) by {
            match id {
                IdentV::Num(n) => {
                    lemma_dec_chars(n);
                },
                IdentV::Alpha(a) => {
                    assert(!all_digits(chunk));
                },
            }
        }
        assert(s.subrange(j + 1, s.len() as int) =~= tail) by {
            assert(forall|k: int| 0 <= k < tail.len() ==> pre_chars(pre)[chunk.len() + 1 + k]
                == tail[k]);
        }
        assert(forall|k: int| 0 <= k < rest.len() ==> wf_ident(#[trigger] rest[k])) by {
            assert(forall|k: int| 0 <= k < rest.len() ==> rest[k] == pre[k + 1]);
        }
        lemma_render_idents_parse(s, j + 1, rest);
        assert(parse_idents(s, i) == Some(seq![id] + rest));
        assert(seq![id] + rest =~= pre);
    }
}

/// Scanning the rendering of a number finds exactly its digits, and the
/// numeric field parses back to the number.
proof fn lemma_render_num_parse(s: Seq<char>, i: int, n: nat)
    requires
        0 <= i <= s.len(),
        n <= u64::MAX,
        i + dec_chars(n).len() <= s.len(),
        s.subrange(i, i + dec_chars(n).len()) == dec_chars(n),
        i + dec_chars(n).len() < s.len() ==> !is_digit(
            s[i + dec_chars(n).len()],
        ),
    ensures
        parse_num(s, i) == Some((n, i + dec_chars(n).len())),
{
    lemma_dec_chars(n);
    let j = i + dec_chars(n).len();
    assert(forall|k: int| i <= k < j ==> s[k] == dec_chars(n)[k - i]) by {
        assert(forall|k: int| i <= k < j ==> s[k] == s.subrange(i, j)[k - i]);
    }
    lemma_scan_digits_exact(s, i, j);
}

/// Parsing the canonical text of a well-formed version gives the version
/// back: display and parse are mutually inverse.
#[verifier::rlimit(50)]
pub proof fn lemma_render_parse(v: VersionV)
    requires
        wf_version(v),
    ensures
        spec_parse(version_chars(v)) == Some(v),
{
    let s = version_chars(v);
    let ma = dec_chars(v.major);
    let mi = dec_chars(v.minor);
    let pa = dec_chars(v.patch);
    lemma_dec_chars(v.major);
    lemma_dec_chars(v.minor);
    lemma_dec_chars(v.patch);
    let i1 = ma.len() as int;
    let i2 = i1 + 1 + mi.len();
    let i3 = i2 + 1 + pa.len();
    assert(s.subrange(0, i1) =~= ma);
    assert(s[i1] == '.');
    assert(s.subrange(i1 + 1, i2) =~= mi);
    assert(s[i2] == '.');
    assert(s.subrange(i2 + 1, i3) =~= pa);
    lemma_render_num_parse(s, 0, v.major);
    lemma_render_num_parse(s, i1 + 1, v.minor);
    lemma_render_num_parse(s, i2 + 1, v.patch);
    if v.pre.len() == 0 {
        assert(i3 == s.len());
        assert(spec_parse(s) == Some(
            VersionV { major: v.major, minor: v.minor, patch: v.patch, pre: Seq::empty() },
        ));
        assert(VersionV { major: v.major, minor: v.minor, patch: v.patch, pre: Seq::empty() }
            =~= v);
    } else {
        assert(s[i3] == '-');
        assert(s.subrange(i3 + 1, s.len() as int) =~= pre_chars(v.pre));
        lemma_render_idents_parse(s, i3 + 1, v.pre);
        assert(spec_parse(s) == Some(
            VersionV { major: v.major, minor: v.minor, patch: v.patch, pre: v.pre },
        ));
        assert(VersionV { major: v.major, minor: v.minor, patch: v.patch, pre: v.pre } =~= v);
    }
}

// ------------------------------------------------------------------
// Bump rules
// ------------------------------------------------------------------
/// The pre-release layout this tool produces: exactly a label and a counter.
pub open spec fn pre_layout(pre: Seq<IdentV>) -> bool {
    pre.len() == 2 && pre[0] is Alpha && pre[1] is Num
}

/// Whether the rule applies to the version: `Pre` needs an absent
/// pre-release, or one of the shape `label.counter` under the same label.
pub open spec fn spec_bump_ok(v: VersionV, r: RuleV) -> bool {
    match r {
        RuleV::Pre(label) => v.pre.len() == 0 || (pre_layout(v.pre) && v.pre[0]->Alpha_0
            == label),
        _ => true,
    }
}

/// The bumped version.  Meaningful when `spec_bump_ok` holds.
pub open spec fn spec_bump(v: VersionV, r: RuleV) -> VersionV {
    match r {
        RuleV::Major => VersionV {
            major: v.major + 1,
            minor: 0,
            patch: 0,
            pre: Seq::empty(),
        },
        RuleV::Minor => VersionV { major: v.major, minor: v.minor + 1, patch: 0, pre: Seq::empty() },
        RuleV::Patch => VersionV {
            major: v.major,
            minor: v.minor,
            patch: v.patch + 1,
            pre: Seq::empty(),
        },
        RuleV::Release => strip_pre(v),
        RuleV::Pre(label) => VersionV {
            major: v.major,
            minor: v.minor,
            patch: v.patch,
            pre: if v.pre.len() == 0 {
                seq![IdentV::Alpha(label), IdentV::Num(0)]
            } else {
                seq![IdentV::Alpha(label), IdentV::Num(v.pre[1]->Num_0 + 1)]
            },
        },
    }
}

/// The arithmetic headroom a bump needs so that no component overflows.
pub open spec fn bump_fits(v: VersionV, r: RuleV) -> bool {
    match r {
        RuleV::Major => v.major < u64::MAX,
        RuleV::Minor => v.minor < u64::MAX,
        RuleV::Patch => v.patch < u64::MAX,
        RuleV::Release => true,
        RuleV::Pre(label) => spec_bump_ok(v, r) && v.pre.len() > 0 ==> v.pre[1]->Num_0
            < u64::MAX,
    }
}

impl Version {
    /// Apply a bump rule.  `Major`, `Minor` and `Patch` advance the triple,
    /// reset the lesser components and clear the pre-release; `Release`
    /// clears the pre-release; `Pre(label)` starts a pre-release at counter
    /// zero or increments the existing counter under the same label.
    pub fn bump(&self, rule: &Rule) -> (r: Result<Version, Error>)
        requires
            wf_version(self@),
            bump_fits(self@, rule@),
            rule@ matches RuleV::Pre(label) ==> wf_alpha(label),
        ensures
            match r {
                Ok(v) => spec_bump_ok(self@, rule@) && v@ == spec_bump(self@, rule@)
                    && wf_version(v@),
                Err(e) => !spec_bump_ok(self@, rule@) && match e {
                    Error::PreReleaseLayout => !pre_layout(self@.pre),
                    Error::PreLabelMismatch { existing, requested } => pre_layout(self@.pre)
                        && existing@ == self@.pre[0]->Alpha_0 && requested@
                        == rule@->Pre_0 && existing@ != requested@,
                    _ => false,
                },
            },
    {
        match rule {
            Rule::Major => {
                let out = Version { major: self.major + 1, minor: 0, patch: 0, pre: Vec::new() };
                assert(out@ =~= spec_bump(self@, rule@)) by {
                    assert(out@.pre =~= Seq::<IdentV>::empty());
                }
                Ok(out)
            },
            Rule::Minor => {
                let out = Version {
                    major: self.major,
                    minor: self.minor + 1,
                    patch: 0,
                    pre: Vec::new(),
                };
                assert(out@ =~= spec_bump(self@, rule@)) by {
                    assert(out@.pre =~= Seq::<IdentV>::empty());
                }
                Ok(out)
            },
            Rule::Patch => {
                let out = Version {
                    major: self.major,
                    minor: self.minor,
                    patch: self.patch + 1,
                    pre: Vec::new(),
                };
                assert(out@ =~= spec_bump(self@, rule@)) by {
                    assert(out@.pre =~= Seq::<IdentV>::empty());
                }
                Ok(out)
            },
            Rule::Release => {
                let out = Version {
                    major: self.major,
                    minor: self.minor,
                    patch: self.patch,
                    pre: Vec::new(),
                };
                assert(out@ =~= spec_bump(self@, rule@)) by {
                    assert(out@.pre =~= Seq::<IdentV>::empty());
                }
                Ok(out)
            },
            Rule::Pre(label) => {
                if self.pre.len() == 0 {
                    let mut pre: Vec<Ident> = Vec::new();
                    pre.push(Ident::Alpha(label.clone()));
                    pre.push(Ident::Num(0));
                    let out = Version {
                        major: self.major,
                        minor: self.minor,
                        patch: self.patch,
                        pre,
                    };
                    assert(out@ =~= spec_bump(self@, rule@)) by {
                        assert(out@.pre =~= seq![IdentV::Alpha(label@), IdentV::Num(0)]);
                    }
                    Ok(out)
                } else if self.pre.len() != 2 {
                    assert(!pre_layout(self@.pre));
                    Err(Error::PreReleaseLayout)
                } else {
                    let head_alpha: Option<String> = match &self.pre[0] {
                        Ident::Alpha(existing) => Some(existing.clone()),
                        Ident::Num(_) => None,
                    };
                    let counter: Option<u64> = match &self.pre[1] {
                        Ident::Num(c) => Some(*c),
                        Ident::Alpha(_) => None,
                    };
                    match (head_alpha, counter) {
                        (Some(existing), Some(c)) => {
                            assert(pre_layout(self@.pre));
                            if str_eq(existing.as_str(), label.as_str()) {
                                let mut pre: Vec<Ident> = Vec::new();
                                pre.push(Ident::Alpha(label.clone()));
                                pre.push(Ident::Num(c + 1));
                                let out = Version {
                                    major: self.major,
                                    minor: self.minor,
                                    patch: self.patch,
                                    pre,
                                };
                                assert(out@ =~= spec_bump(self@, rule@)) by {
                                    assert(out@.pre =~= seq![
                                        IdentV::Alpha(label@),
                                        IdentV::Num((c + 1) as nat),
                                    ]);
                                }
                                Ok(out)
                            } else {
                                Err(Error::PreLabelMismatch { existing, requested: label.clone() })
                            }
                        },
                        _ => {
                            assert(!pre_layout(self@.pre));
                            Err(Error::PreReleaseLayout)
                        },
                    }
                }
            },
        }
    }
}

/// Monotonicity of the bump rules: wherever a rule strictly advances at all
/// (`Major`, `Minor` and `Patch` always; `Release` and `Pre` on a version
/// that already has a pre-release of the produced layout), the bumped
/// version is strictly greater under the semver order.
pub proof fn lemma_bump_monotonic(v: VersionV, r: RuleV)
    requires
        spec_bump_ok(v, r),
        r matches RuleV::Pre(label) ==> v.pre.len() > 0,
        r is Release ==> v.pre.len() > 0,
    ensures
        version_lt(v, spec_bump(v, r)),
{
    let b = spec_bump(v, r);
    match r {
        RuleV::Major => {},
        RuleV::Minor => {},
        RuleV::Patch => {},
        RuleV::Release => {},
        RuleV::Pre(label) => {
            let c = v.pre[1]->Num_0;
            assert(v.pre =~= seq![IdentV::Alpha(label), IdentV::Num(c)]);
            assert(b.pre == seq![IdentV::Alpha(label), IdentV::Num(c + 1)]);
            assert(v.pre[0] == b.pre[0]);
            assert(v.pre.drop_first() =~= seq![IdentV::Num(c)]);
            assert(b.pre.drop_first() =~= seq![IdentV::Num(c + 1)]);
            assert(idents_lt(seq![IdentV::Num(c)], seq![IdentV::Num(c + 1)])) by {
                assert(seq![IdentV::Num(c)][0] == IdentV::Num(c));
                assert(seq![IdentV::Num(c + 1)][0] == IdentV::Num(c + 1));
                assert(IdentV::Num(c) != IdentV::Num(c + 1));
                assert(ident_lt(IdentV::Num(c), IdentV::Num(c + 1)));
            }
            assert(idents_lt(v.pre, b.pre));
        },
    }
}

// ------------------------------------------------------------------
// Executable comparison
// ------------------------------------------------------------------
/// Lexicographic comparison of the tails of two strings from position `i`.
fn lex_lt_from(a: &str, b: &str, i: usize) -> (r: bool)
    requires
        i <= a@.len(),
        i <= b@.len(),
    ensures
        r == lex_lt(a@.skip(i as int), b@.skip(i as int)),
    decreases a@.len() - i,
{
    let na = a.unicode_len();
    let nb = b.unicode_len();
    let ghost sa = a@.skip(i as int);
    let ghost sb = b@.skip(i as int);
    if i == na {
        assert(sa.len() == 0);
        nb > i
    } else if i == nb {
        assert(sb.len() == 0 && sa.len() > 0);
        false
    } else {
        let ca = a.get_char(i);
        let cb = b.get_char(i);
        assert(sa[0] == a@[i as int] && sb[0] == b@[i as int]);
        if ca != cb {
            ca < cb
        } else {
            let r = lex_lt_from(a, b, i + 1);
            assert(sa.drop_first() =~= a@.skip(i + 1 as int));
            assert(sb.drop_first() =~= b@.skip(i + 1 as int));
            r
        }
    }
}

impl Ident {
    /// Whether two identifiers are the same.
    pub fn same(&self, other: &Ident) -> (r: bool)
        ensures
            r == (self@ == other@),
    {
        match (self, other) {
            (Ident::Num(x), Ident::Num(y)) => x == y,
            (Ident::Alpha(x), Ident::Alpha(y)) => crate::chars::str_eq(x.as_str(), y.as_str()),
            _ => {
                assert(self@ != other@);
                false
            },
        }
    }

    /// Strict semver order on identifiers.
    pub fn lt(&self, other: &Ident) -> (r: bool)
        ensures
            r == ident_lt(self@, other@),
    {
        match (self, other) {
            (Ident::Num(x), Ident::Num(y)) => x < y,
            (Ident::Num(_), Ident::Alpha(_)) => true,
            (Ident::Alpha(_), Ident::Num(_)) => false,
            (Ident::Alpha(x), Ident::Alpha(y)) => {
                let r = lex_lt_from(x.as_str(), y.as_str(), 0);
                assert(x@.skip(0) =~= x@);
                assert(y@.skip(0) =~= y@);
                r
            },
        }
    }
}

/// Comparison of the tails of two identifier lists from position `i`.
fn idents_lt_from(a: &Vec<Ident>, b: &Vec<Ident>, i: usize) -> (r: bool)
    requires
        i <= a@.len(),
        i <= b@.len(),
    ensures
        r == idents_lt(
            a@.map_values(|id: Ident| id@).skip(i as int),
            b@.map_values(|id: Ident| id@).skip(i as int),
        ),
    decreases a@.len() - i,
{
    let ghost ga = a@.map_values(|id: Ident| id@).skip(i as int);
    let ghost gb = b@.map_values(|id: Ident| id@).skip(i as int);
    if i == a.len() {
        assert(ga.len() == 0);
        b.len() > i
    } else if i == b.len() {
        assert(gb.len() == 0 && ga.len() > 0);
        false
    } else {
        assert(ga[0] == a@[i as int]@ && gb[0] == b@[i as int]@);
        if !a[i].same(&b[i]) {
            a[i].lt(&b[i])
        } else {
            let r = idents_lt_from(a, b, i + 1);
            assert(ga.drop_first() =~= a@.map_values(|id: Ident| id@).skip(i + 1 as int));
            assert(gb.drop_first() =~= b@.map_values(|id: Ident| id@).skip(i + 1 as int));
            r
        }
    }
}

impl Version {
    /// Whether two versions are the same in every component.
    pub fn same(&self, other: &Version) -> (r: bool)
        ensures
            r == (self@ == other@),
    {
        if self.major != other.major || self.minor != other.minor || self.patch != other.patch {
            return false;
        }
        if self.pre.len() != other.pre.len() {
            assert(self@.pre.len() != other@.pre.len());
            return false;
        }
        let n = self.pre.len();
        let mut k: usize = 0;
        while k < n
            invariant
                k <= n,
                n == self.pre.len() == other.pre.len(),
                forall|j: int| 0 <= j < k ==> self@.pre[j] == other@.pre[j],
            decreases n - k,
        {
            if !self.pre[k].same(&other.pre[k]) {
                assert(self@.pre[k as int] != other@.pre[k as int]);
                return false;
            }
            assert(self@.pre[k as int] == other@.pre[k as int]);
            k = k + 1;
        }
        assert(self@.pre =~= other@.pre);
        assert(self@ =~= other@);
        true
    }

    /// Strict semver order: `self < other`.
    pub fn lt(&self, other: &Version) -> (r: bool)
        ensures
            r == version_lt(self@, other@),
    {
        if self.major != other.major {
            self.major < other.major
        } else if self.minor != other.minor {
            self.minor < other.minor
        } else if self.patch != other.patch {
            self.patch < other.patch
        } else if self.pre.len() == 0 {
            false
        } else if other.pre.len() == 0 {
            true
        } else {
            let r = idents_lt_from(&self.pre, &other.pre, 0);
            assert(self@.pre.skip(0) =~= self@.pre);
            assert(other@.pre.skip(0) =~= other@.pre);
            r
        }
    }
}

// ------------------------------------------------------------------
// Executable helpers
// ------------------------------------------------------------------
fn digit_char_exec(d: u64) -> (c: char)
    requires
        d < 10,
    ensures
        c == digit_char(d as nat),
{
    if d == 0 { '0' }
    else if d == 1 { '1' }
    else if d == 2 { '2' }
    else if d == 3 { '3' }
    else if d == 4 { '4' }
    else if d == 5 { '5' }
    else if d == 6 { '6' }
    else if d == 7 { '7' }
    else if d == 8 { '8' }
    else { '9' }
}

fn digit_val_exec(c: char) -> (d: u64)
    requires
        is_digit(c),
    ensures
        d == digit_val(c),
        d < 10,
{
    if c == '0' { 0 }
    else if c == '1' { 1 }
    else if c == '2' { 2 }
    else if c == '3' { 3 }
    else if c == '4' { 4 }
    else if c == '5' { 5 }
    else if c == '6' { 6 }
    else if c == '7' { 7 }
    else if c == '8' { 8 }
    else { 9 }
}

/// Append the decimal rendering of `n`.
pub fn push_dec_chars(out: &mut Vec<char>, n: u64)
    ensures
        final(out)@ == old(out)@ + dec_chars(n as nat),
{
    let ghost base = out@;
    if n == 0 {
        out.push('0');
        assert(dec_chars(0) =~= seq!['0']);
        assert(out@ =~= base + dec_chars(0));
        return;
    }
    let mut tmp: Vec<char> = Vec::new();
    let mut cur: u64 = n;
    assert(tmp@.reverse() =~= Seq::<char>::empty());
    while cur > 0
        invariant
            dec_chars(n as nat) == (if cur > 0 {
                dec_chars(cur as nat) + tmp@.reverse()
            } else {
                tmp@.reverse()
            }),
        decreases cur,
    {
        let ghost old_tmp = tmp@;
        let d: u64 = cur % 10;
        let c = digit_char_exec(d);
        tmp.push(c);
        assert(tmp@.reverse() =~= seq![c] + old_tmp.reverse());
        if cur >= 10 {
            assert(dec_chars(cur as nat) == dec_chars((cur as nat) / 10) + seq![
                digit_char((cur as nat) % 10),
            ]);
            assert(dec_chars(n as nat) =~= dec_chars((cur / 10) as nat) + tmp@.reverse());
        } else {
            assert(dec_chars(cur as nat) == seq![digit_char(cur as nat)]);
            assert(dec_chars(n as nat) =~= tmp@.reverse());
        }
        cur = cur / 10;
    }
    let mut k: usize = tmp.len();
    while k > 0
        invariant
            k <= tmp.len(),
            out@ == base + tmp@.reverse().subrange(0, (tmp@.len() - k) as int),
        decreases k,
    {
        k = k - 1;
        out.push(tmp[k]);
        assert(out@ =~= base + tmp@.reverse().subrange(0, (tmp@.len() - k) as int)) by {
            assert(tmp@.reverse()[tmp@.len() - k - 1] == tmp@[k as int]);
        }
    }
    assert(tmp@.reverse().subrange(0, tmp@.len() as int) =~= tmp@.reverse());
}

/// `pre_chars` over an extended list: a dot and the new identifier's text.
proof fn lemma_pre_chars_push(p: Seq<IdentV>, x: IdentV)
    requires
        p.len() > 0,
    ensures
        pre_chars(p.push(x)) == pre_chars(p) + seq!['.'] + ident_chars(x),
    decreases p.len(),
{
    if p.len() == 1 {
        let q = p.push(x);
        assert(q.len() == 2);
        assert(q[0] == p[0]);
        assert(q.drop_first() =~= seq![x]);
        assert(pre_chars(seq![x]) == ident_chars(x));
        assert(pre_chars(q) == ident_chars(p[0]) + seq!['.'] + ident_chars(x));
        assert(pre_chars(p) == ident_chars(p[0]));
    } else {
        let q = p.push(x);
        assert(q.len() > 2);
        assert(q[0] == p[0]);
        assert(q.drop_first() =~= p.drop_first().push(x));
        lemma_pre_chars_push(p.drop_first(), x);
        assert(pre_chars(q) == ident_chars(p[0]) + seq!['.'] + pre_chars(p.drop_first().push(x)));
        assert(pre_chars(p) == ident_chars(p[0]) + seq!['.'] + pre_chars(p.drop_first()));
        assert(pre_chars(q) =~= pre_chars(p) + seq!['.'] + ident_chars(x));
    }
}

/// Append the text of one identifier.
fn push_ident_chars(out: &mut Vec<char>, id: &Ident)
    ensures
        final(out)@ == old(out)@ + ident_chars(id@),
{
    match id {
        Ident::Num(n) => {
            push_dec_chars(out, *n);
        },
        Ident::Alpha(s) => {
            let ghost base = out@;
            let str = s.as_str();
            let n = str.unicode_len();
            let mut i: usize = 0;
            while i < n
                invariant
                    n == str@.len(),
                    i <= n,
                    out@ == base + str@.subrange(0, i as int),
                decreases n - i,
            {
                out.push(str.get_char(i));
                i = i + 1;
                assert(out@ =~= base + str@.subrange(0, i as int));
            }
            assert(str@.subrange(0, n as int) =~= s@);
        },
    }
}

impl Version {
    /// The canonical text of the version.
    pub fn display(&self) -> (r: String)
        ensures
            r@ == version_chars(self@),
    {
        let mut out: Vec<char> = Vec::new();
        push_dec_chars(&mut out, self.major);
        out.push('.');
        push_dec_chars(&mut out, self.minor);
        out.push('.');
        push_dec_chars(&mut out, self.patch);
        let ghost head = out@;
        let ghost pre = self@.pre;
        assert(pre.len() == self.pre.len());
        if self.pre.len() > 0 {
            out.push('-');
            let ghost base = out@;
            let len = self.pre.len();
            let mut i: usize = 0;
            while i < len
                invariant
                    len == self.pre.len(),
                    pre == self@.pre,
                    pre.len() == len,
                    0 <= i <= len,
                    out@ == base + (if i == 0 {
                        Seq::<char>::empty()
                    } else if i < len {
                        pre_chars(pre.take(i as int)) + seq!['.']
                    } else {
                        pre_chars(pre)
                    }),
                decreases len - i,
            {
                let ghost before = out@;
                push_ident_chars(&mut out, &self.pre[i]);
                assert(self.pre[i as int]@ == pre[i as int]);
                if i + 1 < len {
                    out.push('.');
                }
                proof {
                    let tk = pre.take(i as int);
                    let tk1 = pre.take(i + 1 as int);
                    assert(tk1 =~= tk.push(pre[i as int]));
                    if i == 0 {
                        assert(pre_chars(tk1) == ident_chars(pre[0])) by {
                            assert(tk1 =~= seq![pre[0]]);
                        }
                        if 1 < len {
                            assert(out@ =~= base + pre_chars(tk1) + seq!['.']);
                        } else {
                            assert(tk1 =~= pre);
                            assert(out@ =~= base + pre_chars(pre));
                        }
                    } else {
                        lemma_pre_chars_push(tk, pre[i as int]);
                        if i + 1 < len {
                            assert(out@ =~= base + pre_chars(tk1) + seq!['.']);
                        } else {
                            assert(tk1 =~= pre);
                            assert(out@ =~= base + pre_chars(pre));
                        }
                    }
                }
                i = i + 1;
            }
            assert(out@ =~= head + seq!['-'] + pre_chars(pre));
            assert(out@ =~= version_chars(self@));
        } else {
            assert(out@ =~= version_chars(self@));
        }
        chars_to_string(&out)
    }

    /// Parse a version text.  Succeeds exactly on the canonical texts of
    /// well-formed versions; everything else is a `SemverParse` error.
    pub fn parse(text: &str) -> (r: Result<Version, Error>)
        ensures
            match r {
                Ok(v) => spec_parse(text@) == Some(v@) && wf_version(v@) && version_chars(v@)
                    == text@,
                Err(e) => spec_parse(text@) is None && (e matches Error::SemverParse { text: t }
                    && t@ == text@),
            },
    {
        let v = str_to_chars(text);
        let n = v.len();
        let ghost s = text@;
        let major_opt = parse_num_exec(&v, 0);
        if let Some((major, i1)) = major_opt {
            if i1 < n && v[i1] == '.' {
                let minor_opt = parse_num_exec(&v, i1 + 1);
                if let Some((minor, i2)) = minor_opt {
                    if i2 < n && v[i2] == '.' {
                        let patch_opt = parse_num_exec(&v, i2 + 1);
                        if let Some((patch, i3)) = patch_opt {
                            if i3 == n {
                                let out = Version { major, minor, patch, pre: Vec::new() };
                                proof {
                                    assert(out@.pre =~= Seq::<IdentV>::empty());
                                    assert(spec_parse(s) == Some(out@));
                                    lemma_parse_sound(s);
                                }
                                return Ok(out);
                            } else if v[i3] == '-' {
                                match parse_idents_exec(&v, i3 + 1) {
                                    Some(pre) => {
                                        let out = Version { major, minor, patch, pre };
                                        proof {
                                            assert(spec_parse(s) == Some(out@));
                                            lemma_parse_sound(s);
                                        }
                                        return Ok(out);
                                    },
                                    None => {
                                        return Err(Error::SemverParse {
                                            text: String::from_str(text),
                                        });
                                    },
                                }
                            }
                        }
                    }
                }
            }
        }
        Err(Error::SemverParse { text: String::from_str(text) })
    }

    /// Remove the pre-release component, keeping the numeric triple.
    pub fn reset_pre(self) -> (r: Version)
        ensures
            r@ == strip_pre(self@),
    {
        let r = Version { major: self.major, minor: self.minor, patch: self.patch, pre: Vec::new() };
        assert(r@.pre =~= strip_pre(self@).pre);
        assert(r@ =~= strip_pre(self@));
        r
    }
}

fn scan_digits_exec(v: &Vec<char>, start: usize) -> (r: usize)
    requires
        start <= v@.len(),
    ensures
        r == scan_digits(v@, start as int),
        start <= r <= v@.len(),
{
    let mut i = start;
    while i < v.len() && '0' <= v[i] && v[i] <= '9'
        invariant
            start <= i <= v@.len(),
            scan_digits(v@, start as int) == scan_digits(v@, i as int),
        decreases v@.len() - i,
    {
        assert(is_digit(v@[i as int]));
        i = i + 1;
    }
    assert(scan_digits(v@, i as int) == i);
    i
}

fn scan_ident_exec(v: &Vec<char>, start: usize) -> (r: usize)
    requires
        start <= v@.len(),
    ensures
        r == scan_ident(v@, start as int),
        start <= r <= v@.len(),
{
    let mut i = start;
    while i < v.len() && (('0' <= v[i] && v[i] <= '9') || ('a' <= v[i] && v[i] <= 'z') || ('A'
        <= v[i] && v[i] <= 'Z') || v[i] == '-')
        invariant
            start <= i <= v@.len(),
            scan_ident(v@, start as int) == scan_ident(v@, i as int),
        decreases v@.len() - i,
    {
        assert(is_ident_char(v@[i as int]));
        i = i + 1;
    }
    assert(scan_ident(v@, i as int) == i);
    i
}

fn range_all_digits(v: &Vec<char>, a: usize, b: usize) -> (r: bool)
    requires
        a <= b <= v@.len(),
    ensures
        r == all_digits(v@.subrange(a as int, b as int)),
{
    let ghost chunk = v@.subrange(a as int, b as int);
    let mut k = a;
    while k < b
        invariant
            a <= k <= b <= v@.len(),
            chunk == v@.subrange(a as int, b as int),
            forall|j: int| 0 <= j < k - a ==> is_digit(#[trigger] chunk[j]),
        decreases b - k,
    {
        let c = v[k];
        if !('0' <= c && c <= '9') {
            assert(chunk[k - a] == v@[k as int]);
            assert(!all_digits(chunk));
            return false;
        }
        assert(chunk[k - a] == v@[k as int]);
        k = k + 1;
    }
    assert(all_digits(chunk));
    true
}

/// The value of the digit run `[a, b)`, unless it exceeds `u64::MAX`.
pub fn digits_value(v: &Vec<char>, a: usize, b: usize) -> (r: Option<u64>)
    requires
        a <= b <= v@.len(),
        all_digits(v@.subrange(a as int, b as int)),
    ensures
        match r {
            Some(val) => val == digits_val(v@.subrange(a as int, b as int)),
            None => digits_val(v@.subrange(a as int, b as int)) > u64::MAX,
        },
{
    let ghost chunk = v@.subrange(a as int, b as int);
    let mut val: u64 = 0;
    let mut k = a;
    while k < b
        invariant
            a <= k <= b <= v@.len(),
            chunk == v@.subrange(a as int, b as int),
            all_digits(chunk),
            val == digits_val(v@.subrange(a as int, k as int)),
        decreases b - k,
    {
        assert(chunk[k - a] == v@[k as int]);
        assert(is_digit(v@[k as int]));
        let d = digit_val_exec(v[k]);
        let ghost next = v@.subrange(a as int, k + 1 as int);
        proof {
            assert(next.drop_last() =~= v@.subrange(a as int, k as int));
            assert(next.last() == v@[k as int]);
            assert(digits_val(next) == val * 10 + digit_val(v@[k as int]));
        }
        if val > (u64::MAX - d) / 10 {
            proof {
                let q = ((u64::MAX - d) / 10) as int;
                vstd::arithmetic::div_mod::lemma_fundamental_div_mod(u64::MAX - d, 10);
                assert(val * 10 >= (q + 1) * 10) by (nonlinear_arith)
                    requires
                        val > q,
                ;
                assert((q + 1) * 10 > u64::MAX - d);
                assert(digits_val(next) > u64::MAX);
                let whole = v@.subrange(a as int, b as int);
                assert(next =~= whole.subrange(0, k + 1 - a));
                lemma_digits_val_prefix(whole, k + 1 - a);
            }
            return None;
        }
        proof {
            let q = ((u64::MAX - d) / 10) as int;
            vstd::arithmetic::div_mod::lemma_fundamental_div_mod(u64::MAX - d, 10);
            assert(val * 10 <= q * 10) by (nonlinear_arith)
                requires
                    val <= q,
            ;
            assert(q * 10 <= u64::MAX - d);
        }
        val = val * 10 + d;
        k = k + 1;
    }
    Some(val)
}

fn parse_num_exec(v: &Vec<char>, start: usize) -> (r: Option<(u64, usize)>)
    requires
        start <= v@.len(),
    ensures
        match r {
            Some((val, j)) => parse_num(v@, start as int) == Some((val as nat, j as int)) && start
                <= j <= v@.len(),
            None => parse_num(v@, start as int) is None,
        },
{
    let j = scan_digits_exec(v, start);
    proof {
        lemma_scan_digits(v@, start as int);
    }
    if j == start {
        return None;
    }
    if v[start] == '0' && j > start + 1 {
        return None;
    }
    assert(all_digits(v@.subrange(start as int, j as int))) by {
        assert(forall|m: int| 0 <= m < j - start ==> v@.subrange(start as int, j as int)[m]
            == v@[start + m]);
    }
    match digits_value(v, start, j) {
        Some(val) => Some((val, j)),
        None => None,
    }
}

/// Parse the pre-release identifiers from `start` to the end of the text.
fn parse_idents_exec(v: &Vec<char>, start: usize) -> (r: Option<Vec<Ident>>)
    requires
        start <= v@.len(),
    ensures
        match r {
            Some(pre) => parse_idents(v@, start as int) == Some(
                pre@.map_values(|id: Ident| id@),
            ),
            None => parse_idents(v@, start as int) is None,
        },
{
    let ghost s = v@;
    let n = v.len();
    let mut pre: Vec<Ident> = Vec::new();
    let mut cur = start;
    assert(pre@.map_values(|id: Ident| id@) =~= Seq::<IdentV>::empty());
    loop
        invariant
            start <= cur <= n,
            n == s.len(),
            s == v@,
            parse_idents(s, start as int) == (match parse_idents(s, cur as int) {
                None => None::<Seq<IdentV>>,
                Some(rest) => Some(pre@.map_values(|id: Ident| id@) + rest),
            }),
        decreases n - cur,
    {
        let ghost gpre = pre@.map_values(|id: Ident| id@);
        let j = scan_ident_exec(v, cur);
        proof {
            lemma_scan_ident(s, cur as int);
        }
        let ghost chunk = s.subrange(cur as int, j as int);
        if j == cur {
            assert(classify_ident(chunk) is None);
            assert(parse_idents(s, cur as int) is None);
            return None;
        }
        assert(forall|m: int| 0 <= m < chunk.len() ==> is_ident_char(#[trigger] chunk[m])) by {
            assert(forall|m: int| 0 <= m < chunk.len() ==> chunk[m] == s[cur + m]);
        }
        let id: Ident;
        if range_all_digits(v, cur, j) {
            if v[cur] == '0' && j > cur + 1 {
                assert(chunk[0] == s[cur as int]);
                assert(classify_ident(chunk) is None);
                assert(parse_idents(s, cur as int) is None);
                return None;
            }
            assert(chunk.len() > 1 ==> chunk[0] != '0') by {
                assert(chunk[0] == s[cur as int]);
            }
            match digits_value(v, cur, j) {
                Some(val) => {
                    id = Ident::Num(val);
                    assert(classify_ident(chunk) == Some(id@));
                },
                None => {
                    assert(classify_ident(chunk) is None);
                    assert(parse_idents(s, cur as int) is None);
                    return None;
                },
            }
        } else {
            let text = range_to_string(v, cur, j);
            id = Ident::Alpha(text);
            assert(classify_ident(chunk) == Some(id@));
        }
        if j == n {
            pre.push(id);
            proof {
                assert(parse_idents(s, cur as int) == Some(seq![id@]));
                assert(pre@.map_values(|x: Ident| x@) =~= gpre + seq![id@]);
                assert(gpre + seq![id@] =~= pre@.map_values(|x: Ident| x@));
                assert(parse_idents(s, start as int) == Some(pre@.map_values(|x: Ident| x@)))
                    by {
                    assert(gpre + (seq![id@]) =~= pre@.map_values(|x: Ident| x@));
                }
            }
            return Some(pre);
        } else if v[j] == '.' {
            pre.push(id);
            cur = j + 1;
            proof {
                assert(parse_idents(s, cur as int) matches Some(rest) ==> parse_idents(
                    s,
                    (j + 1) as int,
                ) == Some(rest));
                assert(pre@.map_values(|x: Ident| x@) =~= gpre + seq![id@]);
                assert forall|rest: Seq<IdentV>| true implies gpre + (seq![id@] + rest) =~= (gpre
                    + seq![id@]) + rest by {}
            }
        } else {
            assert(parse_idents(s, cur as int) is None);
            return None;
        }
    }
}

} // verus!
