//! Parsing of a documentation comment (`/** ... */`) into description and tags.
use vstd::prelude::*;

use crate::text::{join, join_with, strip_leading, trim, trim_both, trim_start_char};

verus! {

/// `@param <type> [$]<name>`: the type is group 1, the name group 2.
pub const PARAM_PATTERN: &'static str = r"@param\s+([^\s]+)\s+\$?(\w+)";

/// `@return <type>`: the type is group 1.
pub const RETURN_PATTERN: &'static str = r"@return\s+([^\s]+)";

/// `@throws <type>`: the type is group 1.
pub const THROWS_PATTERN: &'static str = r"@throws\s+([^\s]+)";

/// The text of capture group `group` in the first match of the regular
/// expression `pattern` in `text`; `None` where the pattern does not compile,
/// nothing matches, or the group takes no part in the match.
pub uninterp spec fn regex_group(pattern: Seq<char>, text: Seq<char>, group: nat) -> Option<Seq<char>>;

/// For each successive non-overlapping match of `pattern` in `text`, the text of
/// its capture group `group`, if that group took part; empty where the pattern
/// does not compile.
pub uninterp spec fn regex_group_all(pattern: Seq<char>, text: Seq<char>, group: nat) -> Seq<
    Option<Seq<char>>,
>;

pub open spec fn opt_view(o: Option<String>) -> Option<Seq<char>> {
    match o {
        Some(s) => Some(s@),
        None => None,
    }
}

/// Relies on `regex::Regex::new` to compile `pattern` and on `Regex::captures`
/// for its leftmost-first match in `text`, of which group `group` is returned.
#[verifier::external_body]
pub(crate) fn first_match_group(pattern: &str, text: &str, group: usize) -> (r: Option<String>)
    ensures
        opt_view(r) == regex_group(pattern@, text@, group as nat),
{
    let re = regex::Regex::new(pattern).ok()?;
    re.captures(text)?.get(group).map(|m| m.as_str().to_string())
}

/// Relies on `regex::Regex::new` to compile `pattern` and on `Regex::captures_iter`
/// for the successive matches in `text`, of each of which group `group` is returned.
#[verifier::external_body]
pub(crate) fn all_match_groups(pattern: &str, text: &str, group: usize) -> (r: Vec<Option<String>>)
    ensures
        r@.len() == regex_group_all(pattern@, text@, group as nat).len(),
        forall|k: int|
            0 <= k < r@.len() ==> opt_view(#[trigger] r@[k]) == regex_group_all(
                pattern@,
                text@,
                group as nat,
            )[k],
{
    match regex::Regex::new(pattern) {
        Ok(re) => re.captures_iter(text).map(|c| c.get(group).map(|m| m.as_str().to_string())).collect(),
        Err(_) => Vec::new(),
    }
}

/// `s` split at each line feed; a text without one is a single line.
pub open spec fn split_lines(s: Seq<char>) -> Seq<Seq<char>>
    decreases s.len(),
{
    if s.len() == 0 {
        seq![Seq::empty()]
    } else {
        let r = split_lines(s.drop_last());
        if s.last() == '\n' {
            r.push(Seq::empty())
        } else {
            r.update(r.len() - 1, r.last().push(s.last()))
        }
    }
}

/// What a documentation comment says, line by line.
pub struct DocLines {
    pub description: Seq<Seq<char>>,
    pub params: Seq<Seq<char>>,
    pub return_type: Option<Seq<char>>,
    pub throws: Seq<Seq<char>>,
}

/// A comment line without its leading `*` marker and surrounding whitespace.
pub open spec fn clean_line(line: Seq<char>) -> Seq<char> {
    trim(strip_leading(trim(line), '*'))
}

pub open spec fn text_or_empty(o: Option<Seq<char>>) -> Seq<char> {
    match o {
        Some(s) => s,
        None => Seq::empty(),
    }
}

/// What one line adds to what the lines before it said.
/// What a tag line adds, given what the three tag patterns matched in it: an
/// `@param` match wins, then `@return` (replacing an earlier one), then `@throws`.
pub open spec fn tag_step(
    acc: DocLines,
    param_type: Option<Seq<char>>,
    param_name: Option<Seq<char>>,
    return_match: Option<Seq<char>>,
    throws_match: Option<Seq<char>>,
) -> DocLines {
    if let Some(ty) = param_type {
        DocLines { params: acc.params.push(ty + " $"@ + text_or_empty(param_name)), ..acc }
    } else if let Some(ret) = return_match {
        DocLines { return_type: Some(ret), ..acc }
    } else if let Some(ty) = throws_match {
        DocLines { throws: acc.throws.push(ty), ..acc }
    } else {
        acc
    }
}

pub open spec fn doc_step(acc: DocLines, line: Seq<char>) -> DocLines {
    let c = clean_line(line);
    if c.len() > 0 && c[0] == '@' {
        tag_step(
            acc,
            regex_group(PARAM_PATTERN@, c, 1),
            regex_group(PARAM_PATTERN@, c, 2),
            regex_group(RETURN_PATTERN@, c, 1),
            regex_group(THROWS_PATTERN@, c, 1),
        )
    } else if c.len() > 0 {
        DocLines { description: acc.description.push(c), ..acc }
    } else {
        acc
    }
}

/// What the lines say, read in order.
pub open spec fn doc_of_lines(lines: Seq<Seq<char>>) -> DocLines
    decreases lines.len(),
{
    if lines.len() == 0 {
        DocLines {
            description: Seq::empty(),
            params: Seq::empty(),
            return_type: None,
            throws: Seq::empty(),
        }
    } else {
        doc_step(doc_of_lines(lines.drop_last()), lines.last())
    }
}

/// What the comment text `raw` says.
pub open spec fn doc_of(raw: Seq<char>) -> DocLines {
    doc_of_lines(split_lines(raw))
}

pub open spec fn views(v: Seq<String>) -> Seq<Seq<char>> {
    v.map_values(|s: String| s@)
}

/// A parsed documentation comment.
pub struct DocblockInfo {
    /// The non-tag lines, joined by single spaces.
    pub description: String,
    /// One `"<type> $<name>"` per `@param` tag.
    pub params: Vec<String>,
    /// The type of the last `@return` tag.
    pub return_type: Option<String>,
    /// One type per `@throws` tag.
    pub throws: Vec<String>,
}

impl DocblockInfo {
    /// Whether this is what the comment text `raw` says.
    pub open spec fn parsed_from(&self, raw: Seq<char>) -> bool {
        let d = doc_of(raw);
        &&& self.description@ == join(d.description, " "@)
        &&& views(self.params@) == d.params
        &&& opt_view(self.return_type) == d.return_type
        &&& views(self.throws@) == d.throws
    }
}

/// Adds what a tag line says, given what the `@param` pattern's two groups,
/// the `@return` pattern and the `@throws` pattern matched in it.
pub fn apply_tag(
    param_type: Option<String>,
    param_name: Option<String>,
    return_match: Option<String>,
    throws_match: Option<String>,
    params: &mut Vec<String>,
    return_type: &mut Option<String>,
    throws: &mut Vec<String>,
)
    ensures
        ({
            let before = DocLines {
                description: Seq::empty(),
                params: views(old(params)@),
                return_type: opt_view(*old(return_type)),
                throws: views(old(throws)@),
            };
            let after = tag_step(
                before,
                opt_view(param_type),
                opt_view(param_name),
                opt_view(return_match),
                opt_view(throws_match),
            );
            &&& views(final(params)@) == after.params
            &&& opt_view(*final(return_type)) == after.return_type
            &&& views(final(throws)@) == after.throws
        }),
{
    if let Some(ty) = param_type {
        let name = match param_name {
            Some(s) => s,
            None => String::new(),
        };
        let entry = ty.concat(" $").concat(name.as_str());
        params.push(entry);
        proof {
            assert(views(final(params)@) =~= views(old(params)@).push(entry@));
        }
    } else if let Some(ret) = return_match {
        *return_type = Some(ret);
    } else if let Some(ty) = throws_match {
        throws.push(ty);
        proof {
            assert(views(final(throws)@) =~= views(old(throws)@).push(ty@));
        }
    }
}

/// Adds what `line` says to the lists gathered so far.
fn apply_line(
    line: &str,
    description: &mut Vec<String>,
    params: &mut Vec<String>,
    return_type: &mut Option<String>,
    throws: &mut Vec<String>,
)
    ensures
        ({
            let before = DocLines {
                description: views(old(description)@),
                params: views(old(params)@),
                return_type: opt_view(*old(return_type)),
                throws: views(old(throws)@),
            };
            let after = doc_step(before, line@);
            &&& views(final(description)@) == after.description
            &&& views(final(params)@) == after.params
            &&& opt_view(*final(return_type)) == after.return_type
            &&& views(final(throws)@) == after.throws
        }),
{
    let cleaned = trim_both(trim_start_char(trim_both(line), '*'));
    let ghost c = cleaned@;
    let n = cleaned.unicode_len();
    if n > 0 && cleaned.get_char(0) == '@' {
        let param_type = first_match_group(PARAM_PATTERN, cleaned, 1);
        let param_name = first_match_group(PARAM_PATTERN, cleaned, 2);
        let return_match = first_match_group(RETURN_PATTERN, cleaned, 1);
        let throws_match = first_match_group(THROWS_PATTERN, cleaned, 1);
        apply_tag(param_type, param_name, return_match, throws_match, params, return_type, throws);
    } else if n > 0 {
        let s = String::from_str(cleaned);
        description.push(s);
        proof {
            assert(views(final(description)@) =~= views(old(description)@).push(s@));
        }
    }
}

/// Parses a documentation comment line by line: `@param`, `@return` and
/// `@throws` tags fill their slots, other non-empty lines make the description.
pub fn parse_docblock(raw: &str) -> (r: DocblockInfo)
    ensures
        r.parsed_from(raw@),
{
    let mut description: Vec<String> = Vec::new();
    let mut params: Vec<String> = Vec::new();
    let mut return_type: Option<String> = None;
    let mut throws: Vec<String> = Vec::new();
    let ghost mut done: Seq<Seq<char>> = Seq::empty();
    let n = raw.unicode_len();
    let mut start: usize = 0;
    let mut i: usize = 0;
    proof {
        assert(views(description@) =~= Seq::<Seq<char>>::empty());
        assert(views(params@) =~= Seq::<Seq<char>>::empty());
        assert(views(throws@) =~= Seq::<Seq<char>>::empty());
        assert(raw@.subrange(0, 0) =~= Seq::<char>::empty());
        assert(split_lines(raw@.subrange(0, 0)) =~= seq![raw@.subrange(0, 0)]);
        assert(done.push(raw@.subrange(0, 0)) =~= seq![raw@.subrange(0, 0)]);
    }
    while i < n
        invariant
            n == raw@.len(),
            start <= i <= n,
            split_lines(raw@.subrange(0, i as int)) == done.push(
                raw@.subrange(start as int, i as int),
            ),
            views(description@) == doc_of_lines(done).description,
            views(params@) == doc_of_lines(done).params,
            opt_view(return_type) == doc_of_lines(done).return_type,
            views(throws@) == doc_of_lines(done).throws,
        decreases n - i,
    {
        let ch = raw.get_char(i);
        let ghost prefix = raw@.subrange(0, i + 1);
        proof {
            assert(prefix.drop_last() =~= raw@.subrange(0, i as int));
            assert(prefix.last() == ch);
        }
        if ch == '\n' {
            let line = raw.substring_char(start, i);
            apply_line(line, &mut description, &mut params, &mut return_type, &mut throws);
            proof {
                assert(done.push(line@).drop_last() =~= done);
                done = done.push(line@);
                assert(raw@.subrange(i + 1, i + 1) =~= Seq::<char>::empty());
            }
            start = i + 1;
        } else {
            proof {
                assert(raw@.subrange(start as int, i + 1) =~= raw@.subrange(
                    start as int,
                    i as int,
                ).push(ch));
                assert(done.push(raw@.subrange(start as int, i as int)).update(
                    done.len() as int,
                    raw@.subrange(start as int, i + 1),
                ) =~= done.push(raw@.subrange(start as int, i + 1)));
            }
        }
        i += 1;
    }
    let last = raw.substring_char(start, n);
    apply_line(last, &mut description, &mut params, &mut return_type, &mut throws);
    proof {
        assert(raw@.subrange(0, n as int) =~= raw@);
        let all = done.push(last@);
        assert(all.drop_last() =~= done);
    }
    let joined = join_with(&description, " ");
    DocblockInfo { description: joined, params, return_type, throws }
}

} // verus!
