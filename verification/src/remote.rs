//! The command that fetches a host's journal over SSH, and what becomes of
//! its output: the matching lines, or the reason the host failed.

use vstd::prelude::*;
use crate::text::{
    chars_of, string_from_chars, extend_chars, extend_str, trim, trim_of, lines, lines_of, contains,
    contains_of,
};
use crate::json::json_object_members;
use crate::journal::{
    LogLine, LogLineView, journal_line_of, parse_journal_json_line, line_opt_view, utf8_lossy,
    utf8_lossy_of,
};

verus! {

/// What a single character becomes inside single quotes: a quote closes the
/// quoting, is escaped, and reopens it (`'\''`).
pub open spec fn quote_piece(c: char) -> Seq<char> {
    if c == '\'' {
        seq!['\'', '\\', '\'', '\'']
    } else {
        seq![c]
    }
}

/// `s` with every single quote replaced by `'\''`.
pub open spec fn escape_quotes(s: Seq<char>) -> Seq<char>
    decreases s.len(),
{
    if s.len() == 0 {
        Seq::empty()
    } else {
        escape_quotes(s.drop_last()) + quote_piece(s.last())
    }
}

/// `s` quoted for a POSIX shell: wrapped in single quotes, with each quote
/// inside escaped.
pub open spec fn shell_quote_of(s: Seq<char>) -> Seq<char> {
    seq!['\''] + escape_quotes(s) + seq!['\'']
}

/// Appends `s` quoted for a POSIX shell (see `shell_quote_of`).
pub fn push_shell_quoted(dst: &mut Vec<char>, s: &str)
    ensures
        final(dst)@ == old(dst)@ + shell_quote_of(s@),
{
    let v = chars_of(s);
    let ghost base = dst@;
    dst.push('\'');
    let mut i: usize = 0;
    while i < v.len()
        invariant
            i <= v.len(),
            v@ == s@,
            dst@ == base + seq!['\''] + escape_quotes(v@.take(i as int)),
        decreases v.len() - i,
    {
        let c = v[i];
        if c == '\'' {
            dst.push('\'');
            dst.push('\\');
            dst.push('\'');
            dst.push('\'');
        } else {
            dst.push(c);
        }
        assert(v@.take(i + 1).drop_last() =~= v@.take(i as int));
        i += 1;
        assert(dst@ =~= base + seq!['\''] + escape_quotes(v@.take(i as int)));
    }
    assert(v@.take(i as int) =~= v@);
    dst.push('\'');
    assert(dst@ =~= base + shell_quote_of(s@));
}

/// Quotes `s` for a POSIX shell: `abc` becomes `'abc'` and `a'b` becomes
/// `'a'\''b'`.
pub fn shell_quote(s: &str) -> (r: String)
    ensures
        r@ == shell_quote_of(s@),
{
    let mut v: Vec<char> = Vec::new();
    push_shell_quoted(&mut v, s);
    assert(v@ =~= shell_quote_of(s@));
    string_from_chars(&v)
}

/// The remote command that dumps a host's whole journal between `since` and
/// `until` as JSON, one entry per line.
pub open spec fn journal_command_of(since: Seq<char>, until: Seq<char>) -> Seq<char> {
    "sudo journalctl -o json --since "@ + shell_quote_of(since) + " --until "@ + shell_quote_of(
        until,
    )
}

/// The remote command that dumps a host's journal for the given window (see
/// `journal_command_of`).
pub fn journal_command(since: &str, until: &str) -> (r: String)
    ensures
        r@ == journal_command_of(since@, until@),
{
    let mut v: Vec<char> = Vec::new();
    extend_str(&mut v, "sudo journalctl -o json --since ");
    push_shell_quoted(&mut v, since);
    extend_str(&mut v, " --until ");
    push_shell_quoted(&mut v, until);
    assert(v@ =~= journal_command_of(since@, until@));
    string_from_chars(&v)
}

/// Why an SSH run failed, from what it wrote to standard error: the last
/// line of that text once trimmed, or `unknown error` where nothing is left.
pub open spec fn failure_reason_of(stderr: Seq<char>) -> Seq<char> {
    let ls = lines_of(trim_of(stderr));
    if ls.len() == 0 {
        "unknown error"@
    } else {
        ls.last()
    }
}

/// The error reported for a host whose SSH run failed.
pub open spec fn ssh_failure_of(host: Seq<char>, stderr: Seq<char>) -> Seq<char> {
    "ssh to "@ + host + " failed: "@ + failure_reason_of(stderr)
}

/// The error reported for a host whose SSH run failed (see `ssh_failure_of`).
pub fn ssh_failure_message(host: &str, stderr: &str) -> (r: String)
    ensures
        r@ == ssh_failure_of(host@, stderr@),
{
    let t = trim(&chars_of(stderr));
    let ls = lines(&t);
    let mut v: Vec<char> = Vec::new();
    extend_str(&mut v, "ssh to ");
    extend_str(&mut v, host);
    extend_str(&mut v, " failed: ");
    if ls.len() == 0 {
        extend_str(&mut v, "unknown error");
    } else {
        let last = &ls[ls.len() - 1];
        assert(last@ == lines_of(trim_of(stderr@)).last());
        extend_chars(&mut v, last);
    }
    assert(v@ =~= ssh_failure_of(host@, stderr@));
    string_from_chars(&v)
}

/// The log line that one line of journal output gives, if any.
pub open spec fn parsed_line_of(line: Seq<char>, host: Seq<char>) -> Option<LogLineView> {
    match json_object_members(line) {
        Some(ms) => journal_line_of(ms, host),
        None => None,
    }
}

/// The log lines, in order, that the journal output `ls` gives whose
/// message contains `search_id`.
pub open spec fn matching_lines_of(ls: Seq<Seq<char>>, host: Seq<char>, search_id: Seq<char>) -> Seq<
    LogLineView,
>
    decreases ls.len(),
{
    if ls.len() == 0 {
        Seq::empty()
    } else {
        matching_lines_of(ls.drop_last(), host, search_id) + match parsed_line_of(ls.last(), host) {
            Some(l) => if contains_of(l.message, search_id) {
                seq![l]
            } else {
                Seq::<LogLineView>::empty()
            },
            None => Seq::<LogLineView>::empty(),
        }
    }
}

/// The views of a sequence of lines.
pub open spec fn lines_view(v: Seq<LogLine>) -> Seq<LogLineView> {
    v.map_values(|l: LogLine| l@)
}

/// The lines of journal output `text` that parse and whose message contains
/// `search_id`, in the order in which they were written.
pub fn matching_lines(text: &str, host: &str, search_id: &str) -> (r: Vec<LogLine>)
    ensures
        lines_view(r@) == matching_lines_of(lines_of(text@), host@, search_id@),
{
    let ls = lines(&chars_of(text));
    let needle = chars_of(search_id);
    let ghost all = lines_of(text@);
    let mut out: Vec<LogLine> = Vec::new();
    let mut i: usize = 0;
    while i < ls.len()
        invariant
            i <= ls.len(),
            ls@.len() == all.len(),
            all == lines_of(text@),
            needle@ == search_id@,
            forall|k: int| 0 <= k < ls@.len() ==> #[trigger] ls@[k]@ == all[k],
            lines_view(out@) == matching_lines_of(all.take(i as int), host@, search_id@),
        decreases ls.len() - i,
    {
        let line = string_from_chars(&ls[i]);
        let parsed = parse_journal_json_line(line.as_str(), host);
        assert(all.take(i + 1).drop_last() =~= all.take(i as int));
        assert(all.take(i + 1).last() == all[i as int]);
        assert(line_opt_view(parsed) == parsed_line_of(all[i as int], host@));
        match parsed {
            Some(l) => {
                if contains(&chars_of(l.message.as_str()), &needle) {
                    out.push(l);
                    assert(lines_view(out@) =~= matching_lines_of(all.take(i as int), host@, search_id@)
                        + seq![out@.last()@]);
                } else {
                    assert(lines_view(out@) =~= matching_lines_of(all.take(i as int), host@, search_id@)
                        + Seq::<LogLineView>::empty());
                }
            },
            None => {
                assert(lines_view(out@) =~= matching_lines_of(all.take(i as int), host@, search_id@)
                    + Seq::<LogLineView>::empty());
            },
        }
        i += 1;
    }
    assert(all.take(i as int) =~= all);
    out
}

/// The outcome of searching one host, given how its SSH run ended: on
/// success the matching lines of its (lossily decoded) output, otherwise the
/// error naming the host and the last line of its standard error.
pub open spec fn host_search_of(
    host: Seq<char>,
    search_id: Seq<char>,
    succeeded: bool,
    stdout: Seq<u8>,
    stderr: Seq<u8>,
) -> Result<Seq<LogLineView>, Seq<char>> {
    if succeeded {
        Ok(matching_lines_of(lines_of(utf8_lossy_of(stdout)), host, search_id))
    } else {
        Err(ssh_failure_of(host, utf8_lossy_of(stderr)))
    }
}

/// Turns the result of one host's SSH run into its matching lines or its
/// error (see `host_search_of`).
pub fn host_search_result(
    host: &str,
    search_id: &str,
    succeeded: bool,
    stdout: &[u8],
    stderr: &[u8],
) -> (r: Result<Vec<LogLine>, String>)
    ensures
        match r {
            Ok(v) => host_search_of(host@, search_id@, succeeded, stdout@, stderr@) == Ok::<
                Seq<LogLineView>,
                Seq<char>,
            >(lines_view(v@)),
            Err(e) => host_search_of(host@, search_id@, succeeded, stdout@, stderr@) == Err::<
                Seq<LogLineView>,
                Seq<char>,
            >(e@),
        },
{
    if succeeded {
        let text = utf8_lossy(stdout);
        Ok(matching_lines(text.as_str(), host, search_id))
    } else {
        let text = utf8_lossy(stderr);
        Err(ssh_failure_message(host, text.as_str()))
    }
}


/// Every line that a host search returns has `search_id` in its message.
pub proof fn lemma_matching_lines_contain(ls: Seq<Seq<char>>, host: Seq<char>, search_id: Seq<char>)
    ensures
        forall|k: int|
            0 <= k < matching_lines_of(ls, host, search_id).len() ==> contains_of(
                #[trigger] matching_lines_of(ls, host, search_id)[k].message,
                search_id,
            ),
    decreases ls.len(),
{
    if ls.len() > 0 {
        lemma_matching_lines_contain(ls.drop_last(), host, search_id);
        let prev = matching_lines_of(ls.drop_last(), host, search_id);
        let all = matching_lines_of(ls, host, search_id);
        assert forall|k: int| 0 <= k < all.len() implies contains_of(
            #[trigger] all[k].message,
            search_id,
        ) by {
            if k < prev.len() {
                assert(all[k] == prev[k]);
            }
        }
    }
}

/// Nothing that matches is lost: every line of the output that parses and
/// whose message contains `search_id` is among the matching lines, whatever
/// its level (unclassified lines included).
pub proof fn lemma_matching_lines_complete(
    ls: Seq<Seq<char>>,
    host: Seq<char>,
    search_id: Seq<char>,
    k: int,
)
    requires
        0 <= k < ls.len(),
        parsed_line_of(ls[k], host) is Some,
        contains_of(parsed_line_of(ls[k], host).unwrap().message, search_id),
    ensures
        matching_lines_of(ls, host, search_id).contains(parsed_line_of(ls[k], host).unwrap()),
        matching_lines_of(ls, host, search_id).len() >= 1,
    decreases ls.len(),
{
    let l = parsed_line_of(ls[k], host).unwrap();
    let prev = matching_lines_of(ls.drop_last(), host, search_id);
    let all = matching_lines_of(ls, host, search_id);
    if k == ls.len() - 1 {
        assert(all == prev + seq![l]);
        assert(all[prev.len() as int] == l);
    } else {
        assert(ls.drop_last()[k] == ls[k]);
        lemma_matching_lines_complete(ls.drop_last(), host, search_id, k);
        let w = choose|w: int| 0 <= w < prev.len() && prev[w] == l;
        assert(all[w] == prev[w]);
    }
}

/// Searching output `a` followed by output `b` gives the matches of `a`
/// followed by those of `b`; a single output line gives its parsed line
/// exactly when that parses and its message contains `search_id`, and
/// nothing otherwise. So the matches come once each, in the order of the
/// output.
pub proof fn lemma_matching_lines_concat(
    a: Seq<Seq<char>>,
    b: Seq<Seq<char>>,
    host: Seq<char>,
    search_id: Seq<char>,
)
    ensures
        matching_lines_of(a + b, host, search_id) == matching_lines_of(a, host, search_id)
            + matching_lines_of(b, host, search_id),
        b.len() == 1 ==> matching_lines_of(b, host, search_id) == (if parsed_line_of(b[0], host) is Some
            && contains_of(parsed_line_of(b[0], host).unwrap().message, search_id) {
            seq![parsed_line_of(b[0], host).unwrap()]
        } else {
            Seq::<LogLineView>::empty()
        }),
    decreases b.len(),
{
    if b.len() == 0 {
        assert(a + b =~= a);
        assert(matching_lines_of(a, host, search_id) + Seq::<LogLineView>::empty() =~= matching_lines_of(
            a,
            host,
            search_id,
        ));
    } else {
        lemma_matching_lines_concat(a, b.drop_last(), host, search_id);
        assert((a + b).drop_last() =~= a + b.drop_last());
        assert((a + b).last() == b.last());
        if b.len() == 1 {
            assert(b.drop_last() =~= Seq::<Seq<char>>::empty());
            assert(matching_lines_of(b.drop_last(), host, search_id) =~= Seq::<LogLineView>::empty());
        }
        assert(matching_lines_of(a + b, host, search_id) =~= matching_lines_of(a, host, search_id)
            + matching_lines_of(b, host, search_id));
    }
}

/// Text without single quotes is quoted by wrapping it in single quotes.
pub proof fn lemma_shell_quote_plain(s: Seq<char>)
    requires
        forall|k: int| 0 <= k < s.len() ==> s[k] != '\'',
    ensures
        shell_quote_of(s) == seq!['\''] + s + seq!['\''],
    decreases s.len(),
{
    lemma_escape_quotes_plain(s);
}

proof fn lemma_escape_quotes_plain(s: Seq<char>)
    requires
        forall|k: int| 0 <= k < s.len() ==> s[k] != '\'',
    ensures
        escape_quotes(s) == s,
    decreases s.len(),
{
    if s.len() > 0 {
        lemma_escape_quotes_plain(s.drop_last());
        assert(s.drop_last().push(s.last()) =~= s);
    }
}


/// The index of the first single quote in `t` (its length if none).
pub open spec fn first_quote(t: Seq<char>) -> nat
    decreases t.len(),
{
    if t.len() == 0 {
        0
    } else if t[0] == '\'' {
        0
    } else {
        1 + first_quote(t.skip(1))
    }
}

/// The value that a POSIX shell gives the word `w` after quote removal,
/// where `w` is made only of single-quoted runs (whose characters are taken
/// literally) and backslash-escaped characters other than a newline; `None`
/// where `w` holds anything else: an unquoted character the shell could
/// expand, split on or glob, or a quote left open.
pub open spec fn quoted_word_value(w: Seq<char>) -> Option<Seq<char>>
    decreases w.len(),
{
    if w.len() == 0 {
        Some(Seq::empty())
    } else if w[0] == '\'' {
        let j = first_quote(w.skip(1));
        if j + 1 < w.len() {
            match quoted_word_value(w.skip((j + 2) as int)) {
                Some(rest) => Some(w.subrange(1, (j + 1) as int) + rest),
                None => None,
            }
        } else {
            None
        }
    } else if w[0] == '\\' && w.len() >= 2 && w[1] != '\n' {
        match quoted_word_value(w.skip(2)) {
            Some(rest) => Some(seq![w[1]] + rest),
            None => None,
        }
    } else {
        None
    }
}

proof fn lemma_first_quote_bounds(t: Seq<char>)
    ensures
        first_quote(t) <= t.len(),
        first_quote(t) < t.len() ==> t[first_quote(t) as int] == '\'',
        forall|k: int| 0 <= k < first_quote(t) ==> t[k] != '\'',
    decreases t.len(),
{
    if t.len() > 0 && t[0] != '\'' {
        lemma_first_quote_bounds(t.skip(1));
        assert forall|k: int| 0 <= k < first_quote(t) implies t[k] != '\'' by {
            if k > 0 {
                assert(t[k] == t.skip(1)[k - 1]);
            }
        }
    }
}

proof fn lemma_first_quote_prefix(a: Seq<char>, t: Seq<char>)
    requires
        forall|k: int| 0 <= k < a.len() ==> a[k] != '\'',
    ensures
        first_quote(a + t) == a.len() + first_quote(t),
    decreases a.len(),
{
    if a.len() == 0 {
        assert(a + t =~= t);
    } else {
        assert((a + t)[0] == a[0]);
        assert((a + t).skip(1) =~= a.skip(1) + t);
        lemma_first_quote_prefix(a.skip(1), t);
    }
}

proof fn lemma_escape_quotes_concat(a: Seq<char>, b: Seq<char>)
    ensures
        escape_quotes(a + b) == escape_quotes(a) + escape_quotes(b),
    decreases b.len(),
{
    if b.len() == 0 {
        assert(a + b =~= a);
        assert(escape_quotes(a) + escape_quotes(b) =~= escape_quotes(a));
    } else {
        assert((a + b).drop_last() =~= a + b.drop_last());
        assert((a + b).last() == b.last());
        lemma_escape_quotes_concat(a, b.drop_last());
        assert(escape_quotes(a) + escape_quotes(b.drop_last()) + quote_piece(b.last())
            =~= escape_quotes(a) + (escape_quotes(b.drop_last()) + quote_piece(b.last())));
    }
}

#[verifier::spinoff_prover]
#[verifier::rlimit(40)]
proof fn lemma_quoted_then(s: Seq<char>, r: Seq<char>, v: Seq<char>)
    requires
        quoted_word_value(r) == Some(v),
    ensures
        quoted_word_value(seq!['\''] + escape_quotes(s) + seq!['\''] + r) == Some(s + v),
    decreases s.len(),
{
    let w = seq!['\''] + escape_quotes(s) + seq!['\''] + r;
    let k = first_quote(s);
    lemma_first_quote_bounds(s);
    if k == s.len() {
        lemma_escape_quotes_plain(s);
        assert(w.skip(1) =~= s + (seq!['\''] + r));
        lemma_first_quote_prefix(s, seq!['\''] + r);
        assert(first_quote(seq!['\''] + r) == 0);
        assert(w.skip((s.len() + 2) as int) =~= r);
        assert(w.subrange(1, (s.len() + 1) as int) =~= s);
    } else {
        let a = s.take(k as int);
        let b = s.skip((k + 1) as int);
        assert(s =~= a + seq!['\''] + b);
        assert forall|i: int| 0 <= i < a.len() implies a[i] != '\'' by {
            assert(a[i] == s[i]);
        }
        lemma_escape_quotes_plain(a);
        lemma_escape_quotes_concat(a + seq!['\''], b);
        lemma_escape_quotes_concat(a, seq!['\'']);
        assert(escape_quotes(seq!['\'']) =~= seq!['\'', '\\', '\'', '\'']) by {
            let q = seq!['\''];
            assert(q.drop_last() =~= Seq::<char>::empty());
            assert(escape_quotes(q.drop_last()) =~= Seq::<char>::empty());
            assert(q.last() == '\'');
            assert(escape_quotes(q) == escape_quotes(q.drop_last()) + quote_piece(q.last()));
        }
        let x = seq!['\\', '\''] + (seq!['\''] + escape_quotes(b) + seq!['\''] + r);
        assert(w =~= seq!['\''] + a + seq!['\''] + x);
        assert(w.skip(1) =~= a + (seq!['\''] + x));
        lemma_first_quote_prefix(a, seq!['\''] + x);
        assert(first_quote(seq!['\''] + x) == 0);
        assert(w.skip((a.len() + 2) as int) =~= x);
        assert(w.subrange(1, (a.len() + 1) as int) =~= a);
        lemma_quoted_then(b, r, v);
        assert(x.skip(2) =~= seq!['\''] + escape_quotes(b) + seq!['\''] + r);
        assert(quoted_word_value(x) == Some(seq!['\''] + (b + v)));
        assert(a + (seq!['\''] + (b + v)) =~= s + v);
    }
}

/// The quoted text is one shell word whose value after quote removal is
/// exactly `s`: the shell expands, splits and globs none of it.
pub proof fn lemma_shell_quote_one_word(s: Seq<char>)
    ensures
        quoted_word_value(shell_quote_of(s)) == Some(s),
{
    lemma_quoted_then(s, Seq::empty(), Seq::empty());
    assert(shell_quote_of(s) =~= seq!['\''] + escape_quotes(s) + seq!['\''] + Seq::<char>::empty());
    assert(s + Seq::<char>::empty() =~= s);
}

} // verus!
