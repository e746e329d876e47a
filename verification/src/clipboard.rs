//! Putting a path where the user can paste it: every desktop has a clipboard
//! and none of them share an API, so the text is piped to whatever tool the
//! platform provides, trying each in turn until one answers.

use vstd::prelude::*;

use crate::text::{copy_string, eq_str, lemma_string_views_push, owned, string_views};

verus! {

/// The command lines that put their input on the clipboard on platform `os`
/// (named as `std::env::consts::OS` names it), in the order they are tried:
/// `clip` on Windows, `pbcopy` on macOS, and on Linux the Wayland tool before
/// the two X11 ones. No tool is known elsewhere.
pub open spec fn clipboard_argvs(os: Seq<char>) -> Seq<Seq<Seq<char>>> {
    if os == "windows"@ {
        seq![seq!["clip"@]]
    } else if os == "macos"@ {
        seq![seq!["pbcopy"@]]
    } else if os == "linux"@ {
        seq![
            seq!["wl-copy"@],
            seq!["xclip"@, "-selection"@, "clipboard"@],
            seq!["xsel"@, "--clipboard"@, "--input"@],
        ]
    } else {
        Seq::empty()
    }
}

/// The clipboard tools to try on platform `os`, program first, in order.
pub fn clipboard_tools(os: &str) -> (r: Vec<Vec<String>>)
    ensures
        r@.len() == clipboard_argvs(os@).len(),
        forall|i: int| 0 <= i < r@.len() ==> string_views(#[trigger] r@[i]@) == clipboard_argvs(os@)[i],
{
    let mut r: Vec<Vec<String>> = Vec::new();
    if eq_str(os, "windows") {
        r.push(vec![owned("clip")]);
    } else if eq_str(os, "macos") {
        r.push(vec![owned("pbcopy")]);
    } else if eq_str(os, "linux") {
        r.push(vec![owned("wl-copy")]);
        r.push(vec![owned("xclip"), owned("-selection"), owned("clipboard")]);
        r.push(vec![owned("xsel"), owned("--clipboard"), owned("--input")]);
    }
    proof {
        if os@ == "windows"@ {
            assert(string_views(r@[0]@) =~= seq!["clip"@]);
        } else if os@ == "macos"@ {
            assert(string_views(r@[0]@) =~= seq!["pbcopy"@]);
        } else if os@ == "linux"@ {
            assert(string_views(r@[0]@) =~= seq!["wl-copy"@]);
            assert(string_views(r@[1]@) =~= seq!["xclip"@, "-selection"@, "clipboard"@]);
            assert(string_views(r@[2]@) =~= seq!["xsel"@, "--clipboard"@, "--input"@]);
        }
    }
    r
}


/// What to do next while copying to the clipboard on platform `os`, after
/// `tried` tools: stop once a tool took the text (copied) or when every tool
/// was tried (not copied); otherwise try the next tool in order.
pub enum CopyStep {
    Try(Vec<String>),
    Stop(bool),
}

/// The next step while copying: tools are tried in order, and the first that
/// takes the text ends the copy.
pub fn copy_step(os: &str, tried: usize, took: bool) -> (r: CopyStep)
    ensures
        took ==> (r matches CopyStep::Stop(c) && c),
        !took && tried < clipboard_argvs(os@).len() ==> (r matches CopyStep::Try(argv) && string_views(
            argv@,
        ) == clipboard_argvs(os@)[tried as int]),
        !took && tried >= clipboard_argvs(os@).len() ==> (r matches CopyStep::Stop(c) && !c),
{
    if took {
        return CopyStep::Stop(true);
    }
    let tools = clipboard_tools(os);
    if tried < tools.len() {
        let mut argv: Vec<String> = Vec::new();
        let t = &tools[tried];
        let mut i: usize = 0;
        while i < t.len()
            invariant
                i <= t.len(),
                string_views(argv@) == string_views(t@).take(i as int),
            decreases t.len() - i,
        {
            let ghost before = argv@;
            argv.push(copy_string(&t[i]));
            proof {
                lemma_string_views_push(before, argv@[i as int]);
                assert(string_views(t@).take(i + 1) =~= string_views(t@).take(i as int).push(t@[i as int]@));
            }
            i += 1;
        }
        assert(string_views(t@).take(t.len() as int) =~= string_views(t@));
        CopyStep::Try(argv)
    } else {
        CopyStep::Stop(false)
    }
}

} // verus!
