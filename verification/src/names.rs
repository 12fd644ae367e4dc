//! The archive file-name grammar:
//! `<14-digit-timestamp>=<11-char-parent-id>+<11-char-own-id>.zip`,
//! matched against the end of the name, parsed and rendered with a
//! round-trip proof.

use vstd::prelude::*;
use crate::digits::{all_digits, is_digit, digit_value};
use crate::util::{all_id_chars, is_id_char, id_char};

verus! {

/// The length of a well-formed name suffix: 14 + 1 + 11 + 1 + 11 + 4.
pub open spec fn suffix_len() -> int {
    42
}

/// Whether the 42 characters of `u` form the grammar:
/// digits, `=`, identifier, `+`, identifier, `.zip`.
pub open spec fn suffix_ok(u: Seq<char>) -> bool {
    &&& all_digits(u.subrange(0, 14))
    &&& u[14] == '='
    &&& all_id_chars(u.subrange(15, 26))
    &&& u[26] == '+'
    &&& all_id_chars(u.subrange(27, 38))
    &&& u[38] == '.'
    &&& u[39] == 'z'
    &&& u[40] == 'i'
    &&& u[41] == 'p'
}

/// What parsing an archive name yields: the date stamp, the parent id and
/// the archive's own id, read off the end of the name.
pub open spec fn parse_name_spec(s: Seq<char>) -> Option<(Seq<char>, Seq<char>, Seq<char>)> {
    if s.len() >= 42 {
        let u = s.subrange(s.len() - 42, s.len() as int);
        if suffix_ok(u) {
            Some((u.subrange(0, 14), u.subrange(15, 26), u.subrange(27, 38)))
        } else {
            None
        }
    } else {
        None
    }
}

/// The name rendered for a new archive.
pub open spec fn render_name(date: Seq<char>, parent_id: Seq<char>, id: Seq<char>) -> Seq<char> {
    date + "="@ + parent_id + "+"@ + id + ".zip"@
}

/// Whether the name ends in `.zip` (other directory entries are ignored).
pub fn ends_with_zip(name: &str) -> (r: bool)
    ensures
        r == (name@.len() >= 4 && name@.subrange(name@.len() - 4, name@.len() as int) == ".zip"@),
{
    proof {
        reveal_strlit(".zip");
    }
    let len = name.unicode_len();
    if len < 4 {
        return false;
    }
    let r = name.get_char(len - 4) == '.' && name.get_char(len - 3) == 'z' && name.get_char(
        len - 2,
    ) == 'i' && name.get_char(len - 1) == 'p';
    proof {
        let tail = name@.subrange(name@.len() - 4, name@.len() as int);
        if r {
            assert(tail =~= ".zip"@);
        } else {
            assert(tail.len() == 4);
            if tail == ".zip"@ {
                assert(tail[0] == '.' && tail[1] == 'z' && tail[2] == 'i' && tail[3] == 'p');
            }
        }
    }
    r
}

/// Parses an archive name against the grammar.
pub fn parse_archive_name(name: &str) -> (r: Option<(String, String, String)>)
    ensures
        r matches Some((d, p, i)) ==> parse_name_spec(name@) == Some((d@, p@, i@)),
        r is None ==> parse_name_spec(name@) is None,
{
    let len = name.unicode_len();
    if len < 42 {
        return None;
    }
    let base = len - 42;
    let ghost u = name@.subrange(name@.len() - 42, name@.len() as int);
    let mut k: usize = 0;
    while k < 14
        invariant
            k <= 14,
            len == name@.len() >= 42,
            base == len - 42,
            u == name@.subrange(name@.len() - 42, name@.len() as int),
            forall|j: int| 0 <= j < k ==> is_digit(#[trigger] u[j]),
        decreases 14 - k,
    {
        let c = name.get_char(base + k);
        proof {
            assert(u[k as int] == name@[base + k]);
        }
        if digit_value(c) > 9 {
            proof {
                assert(!is_digit(u[k as int]));
                assert(u.subrange(0, 14)[k as int] == u[k as int]);
            }
            return None;
        }
        k = k + 1;
    }
    if !(name.get_char(base + 14) == '=') {
        proof {
            assert(u[14] == name@[base + 14]);
        }
        return None;
    }
    let mut k: usize = 15;
    while k < 26
        invariant
            15 <= k <= 26,
            len == name@.len() >= 42,
            base == len - 42,
            u == name@.subrange(name@.len() - 42, name@.len() as int),
            forall|j: int| 15 <= j < k ==> is_id_char(#[trigger] u[j]),
        decreases 26 - k,
    {
        let c = name.get_char(base + k);
        proof {
            assert(u[k as int] == name@[base + k]);
        }
        if !id_char(c) {
            proof {
                assert(u.subrange(15, 26)[k as int - 15] == u[k as int]);
            }
            return None;
        }
        k = k + 1;
    }
    if !(name.get_char(base + 26) == '+') {
        proof {
            assert(u[26] == name@[base + 26]);
        }
        return None;
    }
    let mut k: usize = 27;
    while k < 38
        invariant
            27 <= k <= 38,
            len == name@.len() >= 42,
            base == len - 42,
            u == name@.subrange(name@.len() - 42, name@.len() as int),
            forall|j: int| 27 <= j < k ==> is_id_char(#[trigger] u[j]),
        decreases 38 - k,
    {
        let c = name.get_char(base + k);
        proof {
            assert(u[k as int] == name@[base + k]);
        }
        if !id_char(c) {
            proof {
                assert(u.subrange(27, 38)[k as int - 27] == u[k as int]);
            }
            return None;
        }
        k = k + 1;
    }
    if !(name.get_char(base + 38) == '.' && name.get_char(base + 39) == 'z' && name.get_char(
        base + 40,
    ) == 'i' && name.get_char(base + 41) == 'p') {
        proof {
            assert(u[38] == name@[base + 38]);
            assert(u[39] == name@[base + 39]);
            assert(u[40] == name@[base + 40]);
            assert(u[41] == name@[base + 41]);
        }
        return None;
    }
    let date = String::from_str(name.substring_char(base, base + 14));
    let parent = String::from_str(name.substring_char(base + 15, base + 26));
    let id = String::from_str(name.substring_char(base + 27, base + 38));
    proof {
        assert(u[14] == name@[base + 14]);
        assert(u[26] == name@[base + 26]);
        assert(u[38] == name@[base + 38]);
        assert(u[39] == name@[base + 39]);
        assert(u[40] == name@[base + 40]);
        assert(u[41] == name@[base + 41]);
        assert(u.subrange(0, 14) =~= name@.subrange(base as int, base + 14));
        assert(u.subrange(15, 26) =~= name@.subrange(base + 15, base + 26));
        assert(u.subrange(27, 38) =~= name@.subrange(base + 27, base + 38));
        assert(all_digits(u.subrange(0, 14)));
        assert(all_id_chars(u.subrange(15, 26)));
        assert(all_id_chars(u.subrange(27, 38)));
        assert(suffix_ok(u));
    }
    Some((date, parent, id))
}

/// Renders the file name for a new archive.
pub fn render_archive_name(date: &str, parent_id: &str, id: &str) -> (r: String)
    ensures
        r@ == render_name(date@, parent_id@, id@),
{
    let mut s = String::new();
    s.append(date);
    s.append("=");
    s.append(parent_id);
    s.append("+");
    s.append(id);
    s.append(".zip");
    s
}

/// A rendered name parses back to its parts.
pub proof fn lemma_name_round_trip(date: Seq<char>, parent_id: Seq<char>, id: Seq<char>)
    requires
        date.len() == 14,
        all_digits(date),
        parent_id.len() == 11,
        all_id_chars(parent_id),
        id.len() == 11,
        all_id_chars(id),
    ensures
        parse_name_spec(render_name(date, parent_id, id)) == Some((date, parent_id, id)),
{
    reveal_strlit("=");
    reveal_strlit("+");
    reveal_strlit(".zip");
    let s = render_name(date, parent_id, id);
    assert(s.len() == 42);
    let u = s.subrange(s.len() - 42, s.len() as int);
    assert(u =~= s);
    assert(u.subrange(0, 14) =~= date);
    assert(u.subrange(15, 26) =~= parent_id);
    assert(u.subrange(27, 38) =~= id);
    assert(u[14] == '=');
    assert(u[26] == '+');
    assert(u[38] == '.' && u[39] == 'z' && u[40] == 'i' && u[41] == 'p');
    assert(suffix_ok(u));
}

} // verus!

verus! {

/// A name that parses yields a 14-digit stamp and two 11-character ids.
pub proof fn lemma_parse_name_wf(s: Seq<char>)
    ensures
        parse_name_spec(s) matches Some((d, p, i)) ==> d.len() == 14 && all_digits(d) && p.len()
            == 11 && all_id_chars(p) && i.len() == 11 && all_id_chars(i),
{
    if s.len() >= 42 {
        let u = s.subrange(s.len() - 42, s.len() as int);
        if suffix_ok(u) {
            assert forall|j: int| 0 <= j < 14 implies is_digit(#[trigger] u.subrange(0, 14)[j]) by {}
            assert forall|j: int| 0 <= j < 11 implies is_id_char(
                #[trigger] u.subrange(15, 26)[j],
            ) by {}
            assert forall|j: int| 0 <= j < 11 implies is_id_char(
                #[trigger] u.subrange(27, 38)[j],
            ) by {}
        }
    }
}

} // verus!
