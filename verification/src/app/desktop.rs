//! The desktop entry that names the program to the desktop shell.
use crate::text::{chars_of, push_char};
use vstd::prelude::*;

verus! {

/// The application id, also the window class.
pub const APP_ID: &'static str = "local.enigma2-player";

/// The name shown by the desktop shell.
pub const APP_NAME: &'static str = "Enigma2 Player";

/// The comment shown by the desktop shell.
pub const APP_COMMENT: &'static str = "Watch Dreambox and Enigma2 TV streams with mpv";

/// A character that must be escaped inside a quoted `Exec` argument.
pub open spec fn needs_escape(c: char) -> bool {
    c == '"' || c == '\\' || c == '`' || c == '$'
}

/// `s` with each character that needs it preceded by a backslash.
pub open spec fn escaped(s: Seq<char>) -> Seq<char>
    decreases s.len(),
{
    if s.len() == 0 {
        seq![]
    } else {
        let c = s.last();
        let tail = if needs_escape(c) {
            seq!['\\', c]
        } else {
            seq![c]
        };
        escaped(s.drop_last()) + tail
    }
}

/// `s` as one quoted argument of a desktop entry's `Exec` key.
pub open spec fn desktop_quoted(s: Seq<char>) -> Seq<char> {
    seq!['"'] + escaped(s) + seq!['"']
}

/// The escaped form of one character.
pub open spec fn escape_char(c: char) -> Seq<char> {
    if needs_escape(c) {
        seq!['\\', c]
    } else {
        seq![c]
    }
}

/// What a reader of a quoted argument takes from its inner text: a
/// backslash stands for the character after it.
pub open spec fn unescaped(s: Seq<char>) -> Seq<char>
    decreases s.len(),
{
    if s.len() == 0 {
        seq![]
    } else if s[0] == '\\' && s.len() >= 2 {
        seq![s[1]] + unescaped(s.skip(2))
    } else {
        seq![s[0]] + unescaped(s.drop_first())
    }
}

proof fn lemma_escaped_front(s: Seq<char>)
    requires
        s.len() > 0,
    ensures
        escaped(s) == escape_char(s[0]) + escaped(s.drop_first()),
    decreases s.len(),
{
    if s.len() == 1 {
        assert(s.drop_last() =~= Seq::<char>::empty());
        assert(s.drop_first() =~= Seq::<char>::empty());
        assert(escaped(s) =~= escape_char(s[0]) + escaped(s.drop_first()));
    } else {
        let init = s.drop_last();
        lemma_escaped_front(init);
        let tail = s.drop_first();
        assert(init.drop_first() =~= tail.drop_last());
        assert(tail.last() == s.last());
        assert(init[0] == s[0]);
        assert(escaped(s) =~= escape_char(s[0]) + escaped(tail));
    }
}

/// Quoting loses nothing: the quoted text is in double quotes, and reading
/// its inside back, each backslash standing for the next character, gives
/// the path again.
pub proof fn quoting_round_trips(s: Seq<char>)
    ensures
        desktop_quoted(s).len() >= 2,
        desktop_quoted(s)[0] == '"',
        desktop_quoted(s).last() == '"',
        unescaped(desktop_quoted(s).subrange(1, desktop_quoted(s).len() - 1)) == s,
    decreases s.len(),
{
    let q = desktop_quoted(s);
    assert(q.subrange(1, q.len() - 1) =~= escaped(s));
    if s.len() > 0 {
        lemma_escaped_front(s);
        quoting_round_trips(s.drop_first());
        let rest = s.drop_first();
        assert(desktop_quoted(rest).subrange(1, desktop_quoted(rest).len() - 1) =~= escaped(rest));
        let e = escaped(s);
        if needs_escape(s[0]) {
            assert(e.skip(2) =~= escaped(rest));
        } else {
            assert(e.drop_first() =~= escaped(rest));
        }
        assert(unescaped(e) =~= s);
    } else {
        assert(escaped(s) =~= Seq::<char>::empty());
    }
}

/// The path `raw` quoted for the `Exec` key of a desktop entry: in double quotes,
/// with `"`, `\`, `` ` `` and `$` escaped by a backslash.
pub fn quote_desktop_path(raw: &str) -> (r: String)
    ensures
        r@ == desktop_quoted(raw@),
{
    let v = chars_of(raw);
    let mut quoted = String::new();
    push_char(&mut quoted, '"');
    let mut i: usize = 0;
    while i < v.len()
        invariant
            i <= v.len(),
            quoted@ == seq!['"'] + escaped(v@.take(i as int)),
        decreases v.len() - i,
    {
        let ch = v[i];
        if ch == '"' || ch == '\\' || ch == '`' || ch == '$' {
            push_char(&mut quoted, '\\');
        }
        push_char(&mut quoted, ch);
        assert(v@.take(i + 1).drop_last() =~= v@.take(i as int));
        assert(quoted@ =~= seq!['"'] + escaped(v@.take(i + 1)));
        i = i + 1;
    }
    push_char(&mut quoted, '"');
    assert(v@.take(v.len() as int) =~= v@);
    quoted
}

/// The desktop entry for the program at `exec` (already quoted) with the
/// icon at `icon`.
pub open spec fn desktop_entry_of(exec: Seq<char>, icon: Seq<char>) -> Seq<char> {
    "[Desktop Entry]\nType=Application\nName="@ + APP_NAME@ + "\nComment="@ + APP_COMMENT@
        + "\nExec="@ + exec + "\nIcon="@ + icon
        + "\nTerminal=false\nCategories=AudioVideo;Video;Player;TV;\nStartupNotify=true\nStartupWMClass="@
        + APP_ID@ + "\n"@
}

/// The desktop entry for the program at `exec_path`, quoted, with the icon
/// at `icon_path`.
pub fn desktop_entry(exec_path: &str, icon_path: &str) -> (r: String)
    ensures
        r@ == desktop_entry_of(desktop_quoted(exec_path@), icon_path@),
{
    let mut s = "[Desktop Entry]\nType=Application\nName=".to_owned();
    s.append(APP_NAME);
    s.append("\nComment=");
    s.append(APP_COMMENT);
    s.append("\nExec=");
    let exec = quote_desktop_path(exec_path);
    s.append(exec.as_str());
    s.append("\nIcon=");
    s.append(icon_path);
    s.append("\nTerminal=false\nCategories=AudioVideo;Video;Player;TV;\nStartupNotify=true\nStartupWMClass=");
    s.append(APP_ID);
    s.append("\n");
    s
}

} // verus!
