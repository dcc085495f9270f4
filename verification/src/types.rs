use vstd::prelude::*;

verus! {

// ---------------------------------------------------------------------------
// Character classes
// ---------------------------------------------------------------------------
/// A decimal digit.
pub open spec fn is_digit_char(c: char) -> bool {
    48 <= c as u32 <= 57
}

/// A word character: letters, digits and underscore.
pub open spec fn is_word_char(c: char) -> bool {
    is_digit_char(c) || (65 <= c as u32 <= 90) || (97 <= c as u32 <= 122) || c == '_'
}

/// Whitespace as far as the validation rules are concerned.
pub open spec fn is_space_char(c: char) -> bool {
    c == ' ' || c == '\t' || c == '\n' || c == '\r' || c == '\u{b}' || c == '\u{c}'
}

/// A character allowed in a username: lowercase letters, digits, underscores
/// and periods.
pub open spec fn is_username_char(c: char) -> bool {
    (97 <= c as u32 <= 122) || is_digit_char(c) || c == '.' || c == '_'
}

// ---------------------------------------------------------------------------
// Validation rules
// ---------------------------------------------------------------------------
/// A valid username: 4 to 16 characters, each a lowercase letter, digit,
/// underscore or period.
pub open spec fn username_valid(s: Seq<char>) -> bool {
    4 <= s.len() <= 16 && (forall|i: int| 0 <= i < s.len() ==> is_username_char(#[trigger] s[i]))
}

/// The part of an email address before the `@`: non-empty, with no `@` and no
/// whitespace.
pub open spec fn local_part_ok(s: Seq<char>) -> bool {
    s.len() > 0 && (forall|i: int|
        0 <= i < s.len() ==> #[trigger] s[i] != '@' && !is_space_char(s[i]))
}

/// The part of an email address after the `@`: groups of word characters
/// separated by single periods.
pub open spec fn domain_part_ok(s: Seq<char>) -> bool {
    &&& s.len() > 0
    &&& (forall|i: int| 0 <= i < s.len() ==> is_word_char(#[trigger] s[i]) || s[i] == '.')
    &&& s[0] != '.'
    &&& s[s.len() - 1] != '.'
    &&& (forall|i: int| 0 <= i < s.len() - 1 ==> !(#[trigger] s[i] == '.' && s[i + 1] == '.'))
}

/// A valid email address: a local part, an `@`, and a domain.
pub open spec fn email_valid(s: Seq<char>) -> bool {
    exists|i: int|
        0 <= i < s.len() && #[trigger] s[i] == '@' && local_part_ok(s.subrange(0, i))
            && domain_part_ok(s.subrange(i + 1, s.len() as int))
}

/// A valid 10-digit phone number with no country code; a dash may follow the
/// third and the sixth digit.
pub open spec fn phone_valid(s: Seq<char>) -> bool {
    ||| (s.len() == 10 && forall|i: int| 0 <= i < 10 ==> is_digit_char(#[trigger] s[i]))
    ||| (s.len() == 11 && s[3] == '-' && forall|i: int|
        0 <= i < 11 && i != 3 ==> is_digit_char(#[trigger] s[i]))
    ||| (s.len() == 11 && s[6] == '-' && forall|i: int|
        0 <= i < 11 && i != 6 ==> is_digit_char(#[trigger] s[i]))
    ||| (s.len() == 12 && s[3] == '-' && s[7] == '-' && forall|i: int|
        0 <= i < 12 && i != 3 && i != 7 ==> is_digit_char(#[trigger] s[i]))
}

/// A valid bio: at most 200 characters.
pub open spec fn bio_valid(s: Seq<char>) -> bool {
    s.len() <= 200
}

// ---------------------------------------------------------------------------
// Executable checks
// ---------------------------------------------------------------------------
fn char_is_digit(c: char) -> (r: bool)
    ensures
        r == is_digit_char(c),
{
    let v = c as u32;
    48 <= v && v <= 57
}

fn char_is_word(c: char) -> (r: bool)
    ensures
        r == is_word_char(c),
{
    let v = c as u32;
    (48 <= v && v <= 57) || (65 <= v && v <= 90) || (97 <= v && v <= 122) || c == '_'
}

fn char_is_space(c: char) -> (r: bool)
    ensures
        r == is_space_char(c),
{
    c == ' ' || c == '\t' || c == '\n' || c == '\r' || c == '\u{b}' || c == '\u{c}'
}

fn char_is_username(c: char) -> (r: bool)
    ensures
        r == is_username_char(c),
{
    let v = c as u32;
    (97 <= v && v <= 122) || (48 <= v && v <= 57) || c == '.' || c == '_'
}

/// Whether `s` is acceptable as a username.
pub fn check_username_format(s: &str) -> (r: bool)
    ensures
        r == username_valid(s@),
{
    let n = s.unicode_len();
    if n < 4 || n > 16 {
        return false;
    }
    let mut i: usize = 0;
    while i < n
        invariant
            i <= n,
            n == s@.len(),
            4 <= n <= 16,
            forall|j: int| 0 <= j < i ==> is_username_char(#[trigger] s@[j]),
        decreases n - i,
    {
        if !char_is_username(s.get_char(i)) {
            return false;
        }
        i += 1;
    }
    true
}

/// Whether `s` is acceptable as an email address.
pub fn check_email_format(s: &str) -> (r: bool)
    ensures
        r == email_valid(s@),
{
    let n = s.unicode_len();
    // find the first '@'
    let mut a: usize = 0;
    while a < n && s.get_char(a) != '@'
        invariant
            a <= n,
            n == s@.len(),
            forall|j: int| 0 <= j < a ==> #[trigger] s@[j] != '@',
        decreases n - a,
    {
        a += 1;
    }
    if a == n {
        // no '@' anywhere: no witness index can satisfy email_valid
        assert(!email_valid(s@));
        return false;
    }
    assert(s@[a as int] == '@');
    // local part: non-empty, no whitespace (no '@' by choice of `a`)
    if a == 0 {
        assert(!email_valid(s@)) by {
            assert forall|i: int|
                0 <= i < s@.len() && #[trigger] s@[i] == '@' implies !local_part_ok(
                s@.subrange(0, i),
            ) by {
                if i > 0 {
                    assert(s@.subrange(0, i)[0] == s@[0]);
                }
            }
        }
        return false;
    }
    let mut i: usize = 0;
    while i < a
        invariant
            i <= a < n,
            n == s@.len(),
            forall|j: int| 0 <= j < a ==> #[trigger] s@[j] != '@',
            s@[a as int] == '@',
            forall|j: int| 0 <= j < i ==> !is_space_char(#[trigger] s@[j]),
        decreases a - i,
    {
        if char_is_space(s.get_char(i)) {
            // whitespace in the local part: any witness must equal `a`
            assert(!email_valid(s@)) by {
                assert forall|k: int|
                    0 <= k < s@.len() && #[trigger] s@[k] == '@' implies !local_part_ok(
                    s@.subrange(0, k),
                ) by {
                    if k < a {
                    } else if k > a {
                        assert(s@.subrange(0, k)[a as int] == s@[a as int]);
                    } else {
                        assert(s@.subrange(0, k)[i as int] == s@[i as int]);
                    }
                }
            }
            return false;
        }
        i += 1;
    }
    assert(local_part_ok(s@.subrange(0, a as int))) by {
        assert(forall|j: int|
            0 <= j < a ==> s@.subrange(0, a as int)[j] == #[trigger] s@[j]);
    }
    // domain part
    let dlen = n - a - 1;
    let ghost dom = s@.subrange(a + 1, s@.len() as int);
    if dlen == 0 {
        assert(!domain_part_ok(dom));
        assert(!email_valid(s@)) by {
            lemma_email_witness_unique(s@, a as int);
        }
        return false;
    }
    if s.get_char(a + 1) == '.' {
        assert(dom[0] == '.');
        proof {
            lemma_email_witness_unique(s@, a as int);
        }
        return false;
    }
    if s.get_char(n - 1) == '.' {
        assert(dom[dlen - 1] == '.');
        proof {
            lemma_email_witness_unique(s@, a as int);
        }
        return false;
    }
    let mut j: usize = a + 1;
    while j < n
        invariant
            a + 1 <= j <= n,
            n == s@.len(),
            dlen == n - a - 1,
            0 < dlen,
            dom == s@.subrange(a as int + 1, s@.len() as int),
            dom[0] != '.',
            dom[dlen as int - 1] != '.',
            forall|k: int| 0 <= k < j - a - 1 ==> is_word_char(#[trigger] dom[k]) || dom[k] == '.',
            forall|k: int|
                0 <= k < j - a - 1 && k + 1 < dlen ==> !(#[trigger] dom[k] == '.' && dom[k + 1]
                    == '.'),
            s@[a as int] == '@',
            forall|k: int| 0 <= k < a ==> #[trigger] s@[k] != '@',
            local_part_ok(s@.subrange(0, a as int)),
        decreases n - j,
    {
        let c = s.get_char(j);
        assert(dom[j - a - 1] == s@[j as int]);
        if !char_is_word(c) && c != '.' {
            proof {
                lemma_email_witness_unique(s@, a as int);
            }
            return false;
        }
        if c == '.' {
            // the last domain character is not a '.', so `j + 1` is in range
            assert(j - a - 1 < dlen - 1);
            assert(dom[j - a] == s@[j + 1]);
            if s.get_char(j + 1) == '.' {
                proof {
                    lemma_email_witness_unique(s@, a as int);
                }
                return false;
            }
        }
        j += 1;
    }
    assert(domain_part_ok(dom));
    assert(email_valid(s@));
    true
}

/// In a string whose first `@` stands at `a` with a well-formed local part
/// before it, `a` is the only index that can witness `email_valid`.
proof fn lemma_email_witness_unique(s: Seq<char>, a: int)
    requires
        0 <= a < s.len(),
        s[a] == '@',
        forall|j: int| 0 <= j < a ==> #[trigger] s[j] != '@',
        !domain_part_ok(s.subrange(a + 1, s.len() as int)),
    ensures
        !email_valid(s),
{
    assert forall|k: int| 0 <= k < s.len() && #[trigger] s[k] == '@' implies !(local_part_ok(
        s.subrange(0, k),
    ) && domain_part_ok(s.subrange(k + 1, s.len() as int))) by {
        if k < a {
        } else if k > a {
            assert(s.subrange(0, k)[a] == s[a]);
        }
    }
}

/// Whether `s` is acceptable as a phone number.
pub fn check_phone_format(s: &str) -> (r: bool)
    ensures
        r == phone_valid(s@),
{
    let n = s.unicode_len();
    if n == 10 {
        check_digits_except(s, n, n, n)
    } else if n == 11 {
        if s.get_char(3) == '-' {
            check_digits_except(s, n, 3, n)
        } else if s.get_char(6) == '-' {
            check_digits_except(s, n, 6, n)
        } else {
            false
        }
    } else if n == 12 {
        if s.get_char(3) == '-' && s.get_char(7) == '-' {
            check_digits_except(s, n, 3, 7)
        } else {
            false
        }
    } else {
        false
    }
}

/// Every character of `s` except positions `d1` and `d2` is a digit.
fn check_digits_except(s: &str, n: usize, d1: usize, d2: usize) -> (r: bool)
    requires
        n == s@.len(),
    ensures
        r == forall|i: int| 0 <= i < n && i != d1 && i != d2 ==> is_digit_char(#[trigger] s@[i]),
{
    let mut i: usize = 0;
    while i < n
        invariant
            i <= n,
            n == s@.len(),
            forall|j: int| 0 <= j < i && j != d1 && j != d2 ==> is_digit_char(#[trigger] s@[j]),
        decreases n - i,
    {
        if i != d1 && i != d2 && !char_is_digit(s.get_char(i)) {
            return false;
        }
        i += 1;
    }
    true
}

/// Whether `s` is acceptable as a bio.
pub fn check_bio_format(s: &str) -> (r: bool)
    ensures
        r == bio_valid(s@),
{
    let n = s.unicode_len();
    n <= 200
}

// ---------------------------------------------------------------------------
// Validated wrapper types
// ---------------------------------------------------------------------------
/// A username that has passed format validation.
pub struct Username(String);

/// An email address that has passed format validation.
pub struct Email(String);

/// A phone number that has passed format validation.
pub struct PhoneNumber(String);

/// A bio that has passed format validation.
pub struct Bio(String);

impl View for Username {
    type V = Seq<char>;

    closed spec fn view(&self) -> Seq<char> {
        self.0@
    }
}

impl View for Email {
    type V = Seq<char>;

    closed spec fn view(&self) -> Seq<char> {
        self.0@
    }
}

impl View for PhoneNumber {
    type V = Seq<char>;

    closed spec fn view(&self) -> Seq<char> {
        self.0@
    }
}

impl View for Bio {
    type V = Seq<char>;

    closed spec fn view(&self) -> Seq<char> {
        self.0@
    }
}

impl Username {
    /// Validate `s`; on failure the string is handed back so the caller can
    /// report it.
    pub fn new(s: String) -> (r: Result<Username, String>)
        ensures
            username_valid(s@) ==> (r matches Ok(u) && u@ == s@),
            !username_valid(s@) ==> (r matches Err(e) && e@ == s@),
    {
        if check_username_format(s.as_str()) {
            Ok(Username(s))
        } else {
            Err(s)
        }
    }

    pub fn as_str(&self) -> (r: &str)
        ensures
            r@ == self@,
    {
        self.0.as_str()
    }

    pub fn into_string(self) -> (r: String)
        ensures
            r@ == self@,
    {
        self.0
    }
}

impl Email {
    /// Validate `s`; on failure the string is handed back so the caller can
    /// report it.
    pub fn new(s: String) -> (r: Result<Email, String>)
        ensures
            email_valid(s@) ==> (r matches Ok(u) && u@ == s@),
            !email_valid(s@) ==> (r matches Err(e) && e@ == s@),
    {
        if check_email_format(s.as_str()) {
            Ok(Email(s))
        } else {
            Err(s)
        }
    }

    pub fn as_str(&self) -> (r: &str)
        ensures
            r@ == self@,
    {
        self.0.as_str()
    }

    pub fn into_string(self) -> (r: String)
        ensures
            r@ == self@,
    {
        self.0
    }
}

impl PhoneNumber {
    /// Validate `s`; on failure the string is handed back so the caller can
    /// report it.
    pub fn new(s: String) -> (r: Result<PhoneNumber, String>)
        ensures
            phone_valid(s@) ==> (r matches Ok(u) && u@ == s@),
            !phone_valid(s@) ==> (r matches Err(e) && e@ == s@),
    {
        if check_phone_format(s.as_str()) {
            Ok(PhoneNumber(s))
        } else {
            Err(s)
        }
    }

    pub fn as_str(&self) -> (r: &str)
        ensures
            r@ == self@,
    {
        self.0.as_str()
    }
}

impl Bio {
    /// Validate `s`; on failure the string is handed back so the caller can
    /// report it.
    pub fn new(s: String) -> (r: Result<Bio, String>)
        ensures
            bio_valid(s@) ==> (r matches Ok(u) && u@ == s@),
            !bio_valid(s@) ==> (r matches Err(e) && e@ == s@),
    {
        if check_bio_format(s.as_str()) {
            Ok(Bio(s))
        } else {
            Err(s)
        }
    }

    pub fn as_str(&self) -> (r: &str)
        ensures
            r@ == self@,
    {
        self.0.as_str()
    }
}

} // verus!
