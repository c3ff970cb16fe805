//! The text of the status listing's line templates: `{placeholder}`s filled
//! from a context, and the removal of terminal color sequences from rendered
//! text. Coloring itself is the terminal front end's part.

use vstd::prelude::*;
use crate::git_status::GitStatus;
use crate::text::{chars_of, chars_to_string, decimal, push_char, push_decimal, same_text};

verus! {

/// The values that a template's placeholders may name.
#[derive(Debug, Default)]
pub struct TemplateContext {
    pub branch_name: Option<String>,
    pub ahead_behind: Option<String>,
    pub short_hash: Option<String>,
    pub commit_message: Option<String>,
    pub section_type: Option<String>,
    pub file_status: Option<String>,
    pub filename: Option<String>,
    pub n: Option<usize>,
    pub git_status: Option<GitStatus>,
}

pub open spec fn opt_text(o: Option<String>) -> Seq<char> {
    match o {
        Some(s) => s@,
        None => Seq::empty(),
    }
}

/// What the placeholder `{name}` becomes: the context's value (nothing if it
/// has none), or the placeholder itself if the name is not a known one.
pub open spec fn placeholder_text(name: Seq<char>, ctx: TemplateContext) -> Seq<char> {
    if name == "branch_name"@ {
        opt_text(ctx.branch_name)
    } else if name == "ahead_behind"@ {
        opt_text(ctx.ahead_behind)
    } else if name == "short_hash"@ {
        opt_text(ctx.short_hash)
    } else if name == "commit_message"@ {
        opt_text(ctx.commit_message)
    } else if name == "file_status"@ {
        opt_text(ctx.file_status)
    } else if name == "filename"@ {
        opt_text(ctx.filename)
    } else if name == "n"@ {
        match ctx.n {
            Some(n) => decimal(n as nat),
            None => Seq::empty(),
        }
    } else {
        seq!['{'] + name + seq!['}']
    }
}

/// The position of the first `}` in `s`, or its length if there is none.
pub open spec fn close_index(s: Seq<char>) -> nat
    decreases s.len(),
{
    if s.len() == 0 || s[0] == '}' {
        0
    } else {
        1 + close_index(s.drop_first())
    }
}

/// `s` with every `{name}` replaced; a `{` without a closing `}` and all that
/// follows it stay as they are.
pub open spec fn filled(s: Seq<char>, ctx: TemplateContext) -> Seq<char>
    decreases s.len(),
{
    if s.len() == 0 {
        Seq::empty()
    } else if s[0] != '{' {
        seq![s[0]] + filled(s.skip(1), ctx)
    } else {
        let rest = s.skip(1);
        let c = close_index(rest);
        if c >= rest.len() {
            s
        } else {
            placeholder_text(rest.take(c as int), ctx) + filled(rest.skip(c as int + 1), ctx)
        }
    }
}

pub open spec fn is_ascii_alpha(c: char) -> bool {
    ('a' <= c && c <= 'z') || ('A' <= c && c <= 'Z')
}

/// `s` without the color sequences (`ESC [` up to and including the first
/// ASCII letter).
pub open spec fn stripped(s: Seq<char>) -> Seq<char>
    decreases s.len(), 1nat,
{
    if s.len() == 0 {
        Seq::empty()
    } else if s.len() >= 2 && s[0] == '\x1b' && s[1] == '[' {
        stripped_escape(s.skip(2))
    } else {
        seq![s[0]] + stripped(s.skip(1))
    }
}

/// What remains of `s` once the rest of a color sequence is dropped.
pub open spec fn stripped_escape(s: Seq<char>) -> Seq<char>
    decreases s.len(), 0nat,
{
    if s.len() == 0 {
        Seq::empty()
    } else if is_ascii_alpha(s[0]) {
        stripped(s.skip(1))
    } else {
        stripped_escape(s.skip(1))
    }
}

fn append_opt(out: &mut String, v: &Option<String>)
    ensures
        final(out)@ == old(out)@ + opt_text(*v),
{
    match v {
        Some(s) => out.append(s.as_str()),
        None => {
            assert(old(out)@ + Seq::<char>::empty() =~= old(out)@);
        },
    }
}

fn append_placeholder(out: &mut String, name: &String, ctx: &TemplateContext)
    ensures
        final(out)@ == old(out)@ + placeholder_text(name@, *ctx),
{
    let s = name.as_str();
    if same_text(s, "branch_name") {
        append_opt(out, &ctx.branch_name);
    } else if same_text(s, "ahead_behind") {
        append_opt(out, &ctx.ahead_behind);
    } else if same_text(s, "short_hash") {
        append_opt(out, &ctx.short_hash);
    } else if same_text(s, "commit_message") {
        append_opt(out, &ctx.commit_message);
    } else if same_text(s, "file_status") {
        append_opt(out, &ctx.file_status);
    } else if same_text(s, "filename") {
        append_opt(out, &ctx.filename);
    } else if same_text(s, "n") {
        match ctx.n {
            Some(n) => push_decimal(out, n),
            None => {
                assert(old(out)@ + Seq::<char>::empty() =~= old(out)@);
            },
        }
    } else {
        push_char(out, '{');
        out.append(s);
        push_char(out, '}');
        assert(out@ =~= old(out)@ + placeholder_text(name@, *ctx));
    }
}

/// Fills the placeholders of `template` from `ctx`.
pub fn fill_template(template: &str, ctx: &TemplateContext) -> (r: String)
    ensures
        r@ == filled(template@, *ctx),
{
    let chars = chars_of(template);
    let n = chars.len();
    let mut out = String::new();
    let mut i: usize = 0;
    assert(chars@.skip(0) =~= chars@);
    while i < n
        invariant
            n == chars@.len(),
            chars@ == template@,
            i <= n,
            out@ + filled(chars@.skip(i as int), *ctx) == filled(chars@, *ctx),
        decreases n - i,
    {
        let ghost s = chars@.skip(i as int);
        let c = chars[i];
        assert(s[0] == c);
        if c != '{' {
            let ghost before = out@;
            push_char(&mut out, c);
            assert(s.skip(1) =~= chars@.skip(i + 1));
            assert(before + (seq![c] + filled(s.skip(1), *ctx)) =~= out@ + filled(s.skip(1), *ctx));
            i = i + 1;
        } else {
            let ghost rest = s.skip(1);
            assert(rest =~= chars@.skip(i + 1));
            let mut j = i + 1;
            while j < n && chars[j] != '}'
                invariant
                    n == chars@.len(),
                    i < j <= n,
                    rest == chars@.skip(i + 1),
                    close_index(rest) == (j - i - 1) + close_index(chars@.skip(j as int)),
                decreases n - j,
            {
                assert(chars@.skip(j as int).drop_first() =~= chars@.skip(j + 1));
                j = j + 1;
            }
            if j == n {
                assert(chars@.skip(n as int).len() == 0);
                let tail = chars_to_string(&chars, i, n);
                out.append(tail.as_str());
                assert(chars@.subrange(i as int, n as int) =~= s);
                assert(chars@.skip(n as int) =~= Seq::<char>::empty());
                assert(out@ + filled(chars@.skip(n as int), *ctx) =~= out@);
                i = n;
            } else {
                assert(chars@.skip(j as int)[0] == '}');
                let name = chars_to_string(&chars, i + 1, j);
                assert(rest.take(j - i - 1) =~= chars@.subrange(i + 1, j as int));
                assert(rest.skip(j - i) =~= chars@.skip(j + 1));
                append_placeholder(&mut out, &name, ctx);
                i = j + 1;
            }
        }
    }
    assert(chars@.skip(n as int) =~= Seq::<char>::empty());
    assert(out@ + Seq::<char>::empty() =~= out@);
    out
}

/// Removes terminal color sequences from `text`.
pub fn strip_ansi_codes(text: &str) -> (r: String)
    ensures
        r@ == stripped(text@),
{
    let chars = chars_of(text);
    let n = chars.len();
    let mut out = String::new();
    let mut in_escape = false;
    let mut i: usize = 0;
    assert(chars@.skip(0) =~= chars@);
    while i < n
        invariant
            n == chars@.len(),
            chars@ == text@,
            i <= n,
            out@ + (if in_escape {
                stripped_escape(chars@.skip(i as int))
            } else {
                stripped(chars@.skip(i as int))
            }) == stripped(chars@),
        decreases n - i,
    {
        let ghost s = chars@.skip(i as int);
        let c = chars[i];
        assert(s[0] == c);
        assert(s.skip(1) =~= chars@.skip(i + 1));
        if in_escape {
            if ('a' <= c && c <= 'z') || ('A' <= c && c <= 'Z') {
                in_escape = false;
            }
            i = i + 1;
        } else if c == '\x1b' && i + 1 < n && chars[i + 1] == '[' {
            assert(s[1] == chars@[i + 1]);
            assert(s.skip(2) =~= chars@.skip(i + 2));
            in_escape = true;
            i = i + 2;
        } else {
            let ghost before = out@;
            push_char(&mut out, c);
            assert(before + (seq![c] + stripped(s.skip(1))) =~= out@ + stripped(s.skip(1)));
            i = i + 1;
        }
    }
    assert(chars@.skip(n as int) =~= Seq::<char>::empty());
    assert(out@ + Seq::<char>::empty() =~= out@);
    out
}

} // verus!
