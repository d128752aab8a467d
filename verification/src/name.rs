//! Fully-qualified domain names and owner-name normalization.

use vstd::prelude::*;
use crate::error::SimpleDnsError;

verus! {

/// Longest textual form a fully-qualified name may have.
pub const MAX_NAME_LEN: usize = 255;

/// Longest single label inside a name.
pub const MAX_LABEL_LEN: usize = 63;

/// The characters a label may be made of.
pub open spec fn is_name_char(c: char) -> bool {
    ('a' <= c && c <= 'z') || ('A' <= c && c <= 'Z') || ('0' <= c && c <= '9') || c == '-'
        || c == '_' || c == '*'
}

/// Scans `s` from position `i`, already `cur` characters into the current
/// label: every label is made of name characters and is 1 to 63 characters
/// long, and every label is closed by a dot, so a non-empty name satisfying
/// the scan always ends in the root label.
pub open spec fn labels_ok_from(s: Seq<char>, i: int, cur: int) -> bool
    decreases s.len() - i when 0 <= i <= s.len()
{
    if i == s.len() {
        cur == 0
    } else if s[i] == '.' {
        1 <= cur && cur <= MAX_LABEL_LEN as int && labels_ok_from(s, i + 1, 0)
    } else {
        is_name_char(s[i]) && labels_ok_from(s, i + 1, cur + 1)
    }
}

/// Domain-name syntax of a fully-qualified name: either the bare root
/// label, or a dot-terminated sequence of valid labels within the overall
/// length bound.
pub open spec fn is_valid_fqdn(s: Seq<char>) -> bool {
    (s.len() == 1 && s[0] == '.') || (1 <= s.len() && s.len() <= MAX_NAME_LEN as int
        && labels_ok_from(s, 0, 0))
}

/// The string `resolve` normalizes a short name and an origin into: the
/// origin itself for the apex marker `@`, otherwise `name + "." + origin`,
/// in both cases with a root label appended when one is not already there.
pub open spec fn resolved_str(name: Seq<char>, origin: Seq<char>) -> Seq<char> {
    let joined = if name == seq!['@'] {
        origin
    } else {
        name + seq!['.'] + origin
    };
    if joined.len() >= 1 && joined[joined.len() - 1] == '.' {
        joined
    } else {
        joined + seq!['.']
    }
}

/// A scan that is already past the label-length bound can never succeed.
proof fn lemma_long_label_fails(s: Seq<char>, i: int, cur: int)
    requires
        0 <= i <= s.len(),
        cur > MAX_LABEL_LEN as int,
    ensures
        !labels_ok_from(s, i, cur),
    decreases s.len() - i,
{
    if i < s.len() && s[i] != '.' && is_name_char(s[i]) {
        lemma_long_label_fails(s, i + 1, cur + 1);
    }
}

fn name_char(c: char) -> (r: bool)
    ensures
        r == is_name_char(c),
{
    ('a' <= c && c <= 'z') || ('A' <= c && c <= 'Z') || ('0' <= c && c <= '9') || c == '-'
        || c == '_' || c == '*'
}

/// Decides domain-name syntax for a whole string.
pub fn check_fqdn(s: &str) -> (r: bool)
    ensures
        r == is_valid_fqdn(s@),
{
    let n = s.unicode_len();
    if n == 1 && s.get_char(0) == '.' {
        return true;
    }
    if n == 0 || n > MAX_NAME_LEN {
        return false;
    }
    let mut i: usize = 0;
    let mut cur: usize = 0;
    while i < n
        invariant
            i <= n,
            n == s@.len(),
            1 <= n <= MAX_NAME_LEN,
            cur <= MAX_LABEL_LEN,
            !(s@.len() == 1 && s@[0] == '.'),
            labels_ok_from(s@, 0, 0) == labels_ok_from(s@, i as int, cur as int),
        decreases n - i,
    {
        let c = s.get_char(i);
        if c == '.' {
            if cur == 0 {
                return false;
            }
            cur = 0;
        } else if name_char(c) {
            if cur == MAX_LABEL_LEN {
                proof {
                    lemma_long_label_fails(s@, i as int + 1, cur as int + 1);
                }
                return false;
            }
            cur = cur + 1;
        } else {
            return false;
        }
        i = i + 1;
    }
    cur == 0
}

/// Character-wise string equality.
pub fn str_eq(a: &str, b: &str) -> (r: bool)
    ensures
        r == (a@ == b@),
{
    let n = a.unicode_len();
    let m = b.unicode_len();
    if n != m {
        return false;
    }
    let mut i: usize = 0;
    while i < n
        invariant
            i <= n,
            n == a@.len(),
            n == b@.len(),
            forall|j: int| 0 <= j < i ==> a@[j] == b@[j],
        decreases n - i,
    {
        if a.get_char(i) != b.get_char(i) {
            return false;
        }
        i = i + 1;
    }
    proof {
        assert(a@ =~= b@);
    }
    true
}

/// A fully-qualified domain name: its text always satisfies
/// [`is_valid_fqdn`].
pub struct Fqdn {
    text: String,
}

impl View for Fqdn {
    type V = Seq<char>;

    closed spec fn view(&self) -> Seq<char> {
        self.text@
    }
}

impl Clone for Fqdn {
    fn clone(&self) -> (r: Self)
        ensures
            r == *self,
    {
        Fqdn { text: self.text.clone() }
    }
}

impl Fqdn {
    /// Well-formedness: the text is a syntactically valid
    /// fully-qualified name.
    pub open spec fn valid(&self) -> bool {
        is_valid_fqdn(self@)
    }

    /// The textual form.
    pub fn as_str(&self) -> (r: &str)
        ensures
            r@ == self@,
    {
        self.text.as_str()
    }

    /// The root name `.`.
    pub fn root() -> (r: Fqdn)
        ensures
            r@ == seq!['.'],
            r.valid(),
    {
        let text = String::from_str(".");
        proof {
            reveal_strlit(".");
            assert(text@ =~= seq!['.']);
        }
        Fqdn { text }
    }

    /// Accepts exactly the strings satisfying [`is_valid_fqdn`].
    pub fn parse(s: &str) -> (r: Result<Fqdn, SimpleDnsError>)
        ensures
            is_valid_fqdn(s@) ==> (r matches Ok(f) && f@ == s@ && f.valid()),
            !is_valid_fqdn(s@) ==> (r matches Err(e) && e matches SimpleDnsError::NameSyntax {
                name,
            } && name@ == s@),
    {
        if check_fqdn(s) {
            Ok(Fqdn { text: s.to_owned() })
        } else {
            Err(SimpleDnsError::NameSyntax { name: s.to_owned() })
        }
    }
}

/// Normalizes a record's short name against a zone origin: `@` stands for
/// the origin itself, anything else is a relative name joined to the origin
/// with a dot; a trailing root label is appended when missing, and the
/// result must satisfy domain-name syntax.
pub fn resolve(name: &str, origin: &str) -> (r: Result<Fqdn, SimpleDnsError>)
    ensures
        is_valid_fqdn(resolved_str(name@, origin@)) ==> (r matches Ok(f) && f@ == resolved_str(
            name@,
            origin@,
        ) && f.valid()),
        !is_valid_fqdn(resolved_str(name@, origin@)) ==> (r matches Err(e) && e
            matches SimpleDnsError::NameSyntax { name: n } && n@ == resolved_str(name@, origin@)),
{
    let name_len = name.unicode_len();
    let is_apex = name_len == 1 && name.get_char(0) == '@';
    let mut text: String;
    if is_apex {
        proof {
            assert(name@ =~= seq!['@']);
        }
        text = origin.to_owned();
    } else {
        proof {
            reveal_strlit(".");
            assert(name@ != seq!['@']) by {
                if name@ == seq!['@'] {
                    assert(name@.len() == 1 && name@[0] == '@');
                }
            }
        }
        text = name.to_owned();
        text.append(".");
        text.append(origin);
    }
    let text_len = text.as_str().unicode_len();
    if text_len == 0 || text.as_str().get_char(text_len - 1) != '.' {
        proof {
            reveal_strlit(".");
        }
        text.append(".");
        proof {
            assert(text@ =~= resolved_str(name@, origin@));
        }
    }
    proof {
        assert(text@ =~= resolved_str(name@, origin@));
    }
    if check_fqdn(text.as_str()) {
        Ok(Fqdn { text })
    } else {
        Err(SimpleDnsError::NameSyntax { name: text })
    }
}

} // verus!
