use vstd::prelude::*;

verus! {

/// An error structure that records the path of the file on which an
/// operation failed together with a human-readable description of the
/// underlying I/O failure.
pub struct FileError {
    /// Path to the file that caused the error.
    path: String,

    /// Description of the underlying I/O error.
    message: String,
}

impl FileError {
    /// Creates a new `FileError`.
    pub fn new(path: &str, message: &str) -> (r: FileError)
        ensures
            r.spec_path() == path@,
            r.spec_message() == message@,
    {
        FileError { path: path.to_owned(), message: message.to_owned() }
    }

    /// Spec view of the recorded path.
    pub closed spec fn spec_path(&self) -> Seq<char> {
        self.path@
    }

    /// Spec view of the recorded description.
    pub closed spec fn spec_message(&self) -> Seq<char> {
        self.message@
    }

    /// Returns the path of the file that caused the error.
    pub fn path(&self) -> (r: &str)
        ensures
            r@ == self.spec_path(),
    {
        self.path.as_str()
    }

    /// Returns the description of the underlying I/O error.
    pub fn message(&self) -> (r: &str)
        ensures
            r@ == self.spec_message(),
    {
        self.message.as_str()
    }
}

/// The lowercase hexadecimal character for a nibble value.
pub open spec fn hex_char_of_nibble(n: u8) -> char
    recommends
        n < 16,
{
    if n < 10 {
        ((n + 0x30) as u8) as char
    } else {
        ((n + 0x57) as u8) as char
    }
}

/// The two-characters-per-byte lowercase hexadecimal rendering of a byte
/// sequence, high nibble first.
pub open spec fn hex_of(bytes: Seq<u8>) -> Seq<char> {
    Seq::new(
        bytes.len() * 2,
        |i: int|
            if i % 2 == 0 {
                hex_char_of_nibble(bytes[i / 2] / 16)
            } else {
                hex_char_of_nibble(bytes[i / 2] % 16)
            },
    )
}

/// Holds of the characters that the decoder accepts: hexadecimal digits in
/// either case.
pub open spec fn is_hex_char(c: char) -> bool {
    ('0' <= c && c <= '9') || ('a' <= c && c <= 'f') || ('A' <= c && c <= 'F')
}

/// The numeric value of a hexadecimal character.
pub open spec fn hex_val(c: char) -> u8
    recommends
        is_hex_char(c),
{
    if '0' <= c && c <= '9' {
        ((c as int) - 0x30) as u8
    } else if 'a' <= c && c <= 'f' {
        ((c as int) - 0x57) as u8
    } else {
        ((c as int) - 0x37) as u8
    }
}

/// Holds exactly of the strings that decode to a byte sequence: even length
/// and hexadecimal digits throughout.
pub open spec fn valid_hex(s: Seq<char>) -> bool {
    s.len() % 2 == 0 && (forall|i: int| 0 <= i < s.len() ==> is_hex_char(#[trigger] s[i]))
}

/// The byte sequence denoted by a valid hexadecimal string.
pub open spec fn bytes_of_hex(s: Seq<char>) -> Seq<u8> {
    Seq::new(s.len() / 2, |i: int| (hex_val(s[2 * i]) * 16 + hex_val(s[2 * i + 1])) as u8)
}

/// Returns the ASCII character representing the provided nibble in
/// lowercase hexadecimal.
pub fn nibble_to_char(n: u8) -> (r: char)
    requires
        n < 16,
    ensures
        r == hex_char_of_nibble(n),
{
    if n < 10 {
        (n + 0x30) as char
    } else {
        (n + 0x57) as char
    }
}

/// Returns the numeric value of the provided hexadecimal character.
///
/// Supports both upper- and lower-case representations.
pub fn char_to_nibble(c: char) -> (r: Option<u8>)
    ensures
        r.is_some() <==> is_hex_char(c),
        r.is_some() ==> r->Some_0 == hex_val(c) && r->Some_0 < 16,
{
    let u = c as u32;
    if 0x30 <= u && u <= 0x39 {
        Some((u - 0x30) as u8)
    } else if 0x61 <= u && u <= 0x66 {
        Some((u - 0x57) as u8)
    } else if 0x41 <= u && u <= 0x46 {
        Some((u - 0x37) as u8)
    } else {
        None
    }
}

/// Appends one character to a string.
///
/// Relies on `String::push`: the character is appended in place and the rest
/// of the string is unchanged.
#[verifier::external_body]
fn push_char(s: &mut String, c: char)
    ensures
        final(s)@ == old(s)@.push(c),
{
    s.push(c);
}

/// Converts a byte slice to its lowercase hexadecimal string representation.
pub fn bytes_to_hex_string(b: &[u8]) -> (r: String)
    ensures
        r@ == hex_of(b@),
{
    let mut r = String::new();
    let len = b.len();
    let mut i: usize = 0;
    while i < len
        invariant
            len == b@.len(),
            i <= len,
            r@ == hex_of(b@.take(i as int)),
        decreases len - i,
    {
        let x = *vstd::slice::slice_index_get(b, i);
        let hi = nibble_to_char(x / 16);
        let lo = nibble_to_char(x % 16);
        push_char(&mut r, hi);
        push_char(&mut r, lo);
        i = i + 1;
        proof {
            assert(r@ =~= hex_of(b@.take(i as int)));
        }
    }
    proof {
        assert(b@.take(len as int) =~= b@);
    }
    r
}

/// Converts a string of hexadecimal characters to the byte sequence it
/// denotes.
///
/// Rejects strings of odd length and strings holding any character outside
/// the hexadecimal digits; decoding is case-insensitive.
pub fn hex_string_to_bytes(s: &str) -> (r: Option<Vec<u8>>)
    ensures
        r.is_some() <==> valid_hex(s@),
        r.is_some() ==> r->Some_0@ == bytes_of_hex(s@),
{
    let len = s.unicode_len();
    if len % 2 != 0 {
        return None;
    }
    let mut ret: Vec<u8> = Vec::new();
    let mut i: usize = 0;
    while i < len
        invariant
            len == s@.len(),
            len % 2 == 0,
            i % 2 == 0,
            i <= len,
            forall|j: int| 0 <= j < i ==> is_hex_char(#[trigger] s@[j]),
            ret@ == bytes_of_hex(s@.take(i as int)),
        decreases len - i,
    {
        let hi = s.get_char(i);
        let lo = s.get_char(i + 1);
        let hi_n = match char_to_nibble(hi) {
            Some(n) => n,
            None => {
                return None;
            },
        };
        let lo_n = match char_to_nibble(lo) {
            Some(n) => n,
            None => {
                return None;
            },
        };
        ret.push(hi_n * 16 + lo_n);
        i = i + 2;
        proof {
            assert(ret@ =~= bytes_of_hex(s@.take(i as int)));
        }
    }
    proof {
        assert(s@.take(len as int) =~= s@);
    }
    Some(ret)
}

/// The hexadecimal encoding decodes back to the bytes it came from, and is
/// always accepted by the decoder.
pub proof fn lemma_hex_round_trip(b: Seq<u8>)
    ensures
        valid_hex(hex_of(b)),
        bytes_of_hex(hex_of(b)) == b,
{
    assert forall|i: int| 0 <= i < hex_of(b).len() implies is_hex_char(#[trigger] hex_of(b)[i]) by {
        let x = b[i / 2];
        assert(x / 16 < 16 && x % 16 < 16);
    }
    assert(bytes_of_hex(hex_of(b)) =~= b);
}

/// Compares two string slices character by character.
pub fn str_eq(a: &str, b: &str) -> (r: bool)
    ensures
        r == (a@ == b@),
{
    let a_len = a.unicode_len();
    let b_len = b.unicode_len();
    if a_len != b_len {
        return false;
    }
    let mut i: usize = 0;
    while i < a_len
        invariant
            a_len == a@.len(),
            a_len == b@.len(),
            i <= a_len,
            forall|j: int| 0 <= j < i ==> a@[j] == b@[j],
        decreases a_len - i,
    {
        if a.get_char(i) != b.get_char(i) {
            return false;
        }
        i = i + 1;
    }
    proof {
        assert(a@ =~= b@);
    }
    true
}

/// Holds of a path string whose final component begins with a dot.
///
/// A position starts the final component when it stands at the beginning of
/// the string or right after a separator, with no separator after it.
pub open spec fn spec_is_hidden(p: Seq<char>) -> bool {
    exists|i: int|
        0 <= i < p.len() && #[trigger] p[i] == '.' && (i == 0 || p[i - 1] == '/') && (forall|j: int|
            i < j < p.len() ==> #[trigger] p[j] != '/')
}

/// Holds of a path string in which some component begins with a dot.
pub open spec fn spec_has_hidden_component(p: Seq<char>) -> bool {
    exists|i: int| 0 <= i < p.len() && #[trigger] p[i] == '.' && (i == 0 || p[i - 1] == '/')
}

/// Checks if a file specified by a relative path is considered hidden.
///
/// Currently, only Unix-specific hidden files are supported (i.e. those
/// whose names start with a dot). The path is taken with `/` separators.
pub fn is_hidden(path: &str) -> (r: bool)
    ensures
        r == spec_is_hidden(path@),
{
    let len = path.unicode_len();
    // Scan backwards for the last separator; the character right after it
    // (or the first character, if there is no separator) starts the final
    // component.
    let mut k: usize = len;
    while k > 0
        invariant_except_break
            len == path@.len(),
            k <= len,
            forall|j: int| k <= j < len ==> path@[j] != '/',
        ensures
            len == path@.len(),
            k <= len,
            forall|j: int| k <= j < len ==> path@[j] != '/',
            k > 0 ==> path@[k - 1] == '/',
        decreases k,
    {
        if path.get_char(k - 1) == '/' {
            break ;
        }
        k = k - 1;
    }
    if k < len {
        let c = path.get_char(k);
        if c == '.' {
            proof {
                assert(k == 0 || path@[k - 1] == '/');
                assert(spec_is_hidden(path@));
            }
            true
        } else {
            proof {
                assert forall|i: int|
                    0 <= i < path@.len() && #[trigger] path@[i] == '.' && (i == 0 || path@[i - 1]
                        == '/') implies exists|j: int| i < j < path@.len() && path@[j] == '/' by {
                    if i > k {
                        assert(path@[i - 1] == '/');
                        assert(k <= i - 1 < len);
                        assert(false);
                    } else if i == k {
                        assert(false);
                    } else {
                        if k > 0 {
                            assert(k - 1 < len);
                            assert(path@[k - 1] == '/');
                            assert(i < k - 1 || i == k - 1);
                            if i == k - 1 {
                                assert(path@[i] == '.' && path@[i] == '/');
                            }
                        }
                    }
                }
            }
            false
        }
    } else {
        // Empty final component (or empty path): nothing to inspect.
        proof {
            if spec_is_hidden(path@) {
                let i = choose|i: int|
                    0 <= i < path@.len() && #[trigger] path@[i] == '.' && (i == 0 || path@[i - 1]
                        == '/') && (forall|j: int| i < j < path@.len() ==> #[trigger] path@[j] != '/');
                assert(i < k);
                if k > 0 {
                    assert(path@[k - 1] == '/');
                    assert(i < k - 1 || i == k - 1);
                }
            }
        }
        false
    }
}

/// Checks if any component of a relative path begins with a dot, so that a
/// file beneath a hidden directory counts as hidden as well.
pub fn has_hidden_component(path: &str) -> (r: bool)
    ensures
        r == spec_has_hidden_component(path@),
{
    let len = path.unicode_len();
    let mut i: usize = 0;
    while i < len
        invariant
            len == path@.len(),
            i <= len,
            forall|j: int|
                0 <= j < i ==> !(#[trigger] path@[j] == '.' && (j == 0 || path@[j - 1] == '/')),
        decreases len - i,
    {
        let c = path.get_char(i);
        if c == '.' {
            if i == 0 || path.get_char(i - 1) == '/' {
                return true;
            }
        }
        i = i + 1;
    }
    false
}

} // verus!
