/*!
 * Kernel command line handling for rootfs bank selection: find the active
 * root device in a command line, pick the other bank, and rewrite the
 * command line for it.
 *
 * A command line is a sequence of words separated by runs of ASCII
 * whitespace; `spec_words` is the single authority on that split, and the
 * contracts of the functions here are stated over it.
 */

use vstd::prelude::*;
use vstd::string::StrSliceExecFns;

use crate::util::str_eq;

verus! {

/// ASCII whitespace, as `char::is_ascii_whitespace` defines it: space, tab,
/// newline, form feed, carriage return.
pub open spec fn spec_is_ascii_ws(c: char) -> bool {
    c == ' ' || c == '\t' || c == '\n' || c == '\u{c}' || c == '\r'
}

fn is_ascii_ws(c: char) -> (r: bool)
    ensures
        r == spec_is_ascii_ws(c),
{
    c == ' ' || c == '\t' || c == '\n' || c == '\u{c}' || c == '\r'
}

/// Where the leading word ends: the index of the first ASCII whitespace
/// character, or the length if there is none.
pub open spec fn spec_word_end(s: Seq<char>) -> int
    decreases s.len(),
{
    if s.len() == 0 {
        0
    } else if spec_is_ascii_ws(s[0]) {
        0
    } else {
        1 + spec_word_end(s.drop_first())
    }
}

/// The leading word ends within the string.
proof fn lemma_word_end_bound(s: Seq<char>)
    ensures
        0 <= spec_word_end(s) <= s.len(),
    decreases s.len(),
{
    if s.len() > 0 && !spec_is_ascii_ws(s[0]) {
        lemma_word_end_bound(s.drop_first());
    }
}

/// A scan that saw no whitespace before `k`, and whitespace at `k` unless
/// `k` is the length, has found `spec_word_end`.
proof fn lemma_word_end_at(s: Seq<char>, k: int)
    requires
        0 <= k <= s.len(),
        forall|j: int| 0 <= j < k ==> !spec_is_ascii_ws(s[j]),
        k < s.len() ==> spec_is_ascii_ws(s[k]),
    ensures
        spec_word_end(s) == k,
    decreases k,
{
    if k == 0 {
    } else {
        assert(!spec_is_ascii_ws(s[0]));
        let rest = s.drop_first();
        assert forall|j: int| 0 <= j < k - 1 implies !spec_is_ascii_ws(rest[j]) by {
            assert(rest[j] == s[j + 1]);
        }
        lemma_word_end_at(rest, k - 1);
    }
}

/// The words of a string: maximal runs of non-whitespace characters, in
/// order.
pub open spec fn spec_words(s: Seq<char>) -> Seq<Seq<char>>
    decreases s.len(),
    via spec_words_decreases
{
    if s.len() == 0 {
        Seq::empty()
    } else if spec_is_ascii_ws(s[0]) {
        spec_words(s.drop_first())
    } else {
        let k = spec_word_end(s);
        seq![s.take(k)] + spec_words(s.skip(k))
    }
}

#[via_fn]
proof fn spec_words_decreases(s: Seq<char>) {
    if s.len() > 0 && !spec_is_ascii_ws(s[0]) {
        lemma_word_end_bound(s);
        lemma_word_end_bound(s.drop_first());
    }
}

/// A word that selects the root device: `root=` followed by the device.
pub open spec fn spec_is_root_word(w: Seq<char>) -> bool {
    w.len() >= 5 && w.take(5) == "root="@
}

/// The device named by the first `root=` word, if any.
pub open spec fn spec_first_root(words: Seq<Seq<char>>) -> Option<Seq<char>>
    decreases words.len(),
{
    if words.len() == 0 {
        None
    } else if spec_is_root_word(words[0]) {
        Some(words[0].skip(5))
    } else {
        spec_first_root(words.drop_first())
    }
}

/// The active root device a command line names, if any.
pub open spec fn spec_active_rootfs(s: Seq<char>) -> Option<Seq<char>> {
    spec_first_root(spec_words(s))
}

/// Scan for the end of the word starting at `i`.
fn word_end_from(s: &str, i: usize, n: usize) -> (r: usize)
    requires
        n == s@.len(),
        i <= n,
    ensures
        i <= r <= n,
        r - i == spec_word_end(s@.skip(i as int)),
        forall|j: int| i <= j < r ==> !spec_is_ascii_ws(s@[j]),
        r < n ==> spec_is_ascii_ws(s@[r as int]),
{
    let mut j = i;
    loop
        invariant_except_break
            i <= j <= n,
            n == s@.len(),
            forall|q: int| i <= q < j ==> !spec_is_ascii_ws(s@[q]),
        ensures
            i <= j <= n,
            forall|q: int| i <= q < j ==> !spec_is_ascii_ws(s@[q]),
            j == n || spec_is_ascii_ws(s@[j as int]),
        decreases n - j,
    {
        if j >= n {
            break ;
        }
        let c = s.get_char(j);
        if is_ascii_ws(c) {
            break ;
        }
        j = j + 1;
    }
    proof {
        let sp = s@.skip(i as int);
        assert forall|q: int| 0 <= q < j - i implies !spec_is_ascii_ws(sp[q]) by {
            assert(sp[q] == s@[i + q]);
        }
        if (j as int) < n {
            assert(sp[j - i] == s@[j as int]);
        }
        lemma_word_end_at(sp, j - i);
    }
    j
}

/// Find the active rootfs device in a kernel command line: the remainder of
/// the first word that starts with `root=`.
#[verifier::loop_isolation(false)]
pub fn get_active_rootfs<'a>(cmdline: &'a str) -> (r: Option<&'a str>)
    ensures
        match r {
            Some(x) => spec_active_rootfs(cmdline@) == Some(x@),
            None => spec_active_rootfs(cmdline@) is None,
        },
{
    let n = cmdline.unicode_len();
    let mut p: usize = 0;
    proof {
        assert(cmdline@.skip(0) =~= cmdline@);
    }
    loop
        invariant
            p <= n,
            spec_first_root(spec_words(cmdline@)) == spec_first_root(
                spec_words(cmdline@.skip(p as int)),
            ),
        decreases n - p,
    {
        if p >= n {
            proof {
                assert(cmdline@.skip(n as int) =~= Seq::<char>::empty());
            }
            return None;
        }
        let c = cmdline.get_char(p);
        if is_ascii_ws(c) {
            proof {
                assert(cmdline@.skip(p as int).drop_first() =~= cmdline@.skip(p as int + 1));
            }
            p = p + 1;
        } else {
            let k = word_end_from(cmdline, p, n);
            let ghost sp = cmdline@.skip(p as int);
            let ghost klen = spec_word_end(sp);
            let ghost w = sp.take(klen);
            proof {
                assert(k - p == klen);
                assert(k > p);
                assert(w =~= cmdline@.subrange(p as int, k as int));
                assert(spec_words(sp) == seq![w] + spec_words(sp.skip(klen)));
                assert((seq![w] + spec_words(sp.skip(klen)))[0] == w);
                assert((seq![w] + spec_words(sp.skip(klen))).drop_first() =~= spec_words(
                    sp.skip(klen),
                ));
                assert(sp.skip(klen) =~= cmdline@.skip(k as int));
            }
            let is_root = if k - p >= 5 {
                str_eq(cmdline.substring_char(p, p + 5), "root=")
            } else {
                false
            };
            if is_root {
                let res = cmdline.substring_char(p + 5, k);
                proof {
                    assert(w.take(5) =~= cmdline@.subrange(p as int, p as int + 5));
                    assert(spec_is_root_word(w));
                    assert(w.skip(5) =~= cmdline@.subrange(p as int + 5, k as int));
                }
                return Some(res);
            } else {
                proof {
                    if k - p >= 5 {
                        assert(w.take(5) =~= cmdline@.subrange(p as int, p as int + 5));
                    }
                    assert(!spec_is_root_word(w));
                }
                p = k;
            }
        }
    }
}

/// The two rootfs banks the device alternates between.
pub open spec fn spec_inactive_rootfs(s: Seq<char>) -> Option<Seq<char>> {
    match spec_active_rootfs(s) {
        Option::Some(active) => if active == "/dev/mmcblk0p2"@ {
            Option::Some("/dev/mmcblk0p3"@)
        } else if active == "/dev/mmcblk0p3"@ {
            Option::Some("/dev/mmcblk0p2"@)
        } else {
            Option::None
        },
        Option::None => Option::None,
    }
}

/// Pick the rootfs bank that is not active in the given command line: the
/// other of the two bank devices, or None when the active root is missing or
/// not a bank device.
pub fn get_inactive_rootfs(cmdline: &str) -> (r: Option<&'static str>)
    ensures
        match r {
            Some(x) => spec_inactive_rootfs(cmdline@) == Some(x@),
            None => spec_inactive_rootfs(cmdline@) is None,
        },
{
    let active = match get_active_rootfs(cmdline) {
        Some(a) => a,
        None => return None,
    };
    if str_eq(active, "/dev/mmcblk0p2") {
        Some("/dev/mmcblk0p3")
    } else if str_eq(active, "/dev/mmcblk0p3") {
        Some("/dev/mmcblk0p2")
    } else {
        None
    }
}

/// The word that selects the new root device.
pub open spec fn spec_root_word(newroot: Seq<char>) -> Seq<char> {
    "root="@ + newroot
}

/// The word that selects the mount mode.
pub open spec fn spec_rw_word(rw: bool) -> Seq<char> {
    if rw {
        "rw"@
    } else {
        "ro"@
    }
}

/// The rewritten word list: the first `root=` word is replaced by one naming
/// the new device, the first `ro`/`rw` word by the requested mode, later
/// duplicates of either are dropped, every other word is kept in order, and
/// a missing `root=` or mode word is appended at the end.
pub open spec fn spec_rewritten_words(
    ws: Seq<Seq<char>>,
    newroot: Seq<char>,
    rw: bool,
    set_root: bool,
    set_rw: bool,
) -> Seq<Seq<char>>
    decreases ws.len(),
{
    if ws.len() == 0 {
        (if set_root {
            Seq::<Seq<char>>::empty()
        } else {
            seq![spec_root_word(newroot)]
        }) + (if set_rw {
            Seq::<Seq<char>>::empty()
        } else {
            seq![spec_rw_word(rw)]
        })
    } else {
        let w = ws[0];
        let rest = ws.drop_first();
        if spec_is_root_word(w) {
            if set_root {
                spec_rewritten_words(rest, newroot, rw, true, set_rw)
            } else {
                seq![spec_root_word(newroot)] + spec_rewritten_words(rest, newroot, rw, true, set_rw)
            }
        } else if w == "ro"@ || w == "rw"@ {
            if set_rw {
                spec_rewritten_words(rest, newroot, rw, set_root, true)
            } else {
                seq![spec_rw_word(rw)] + spec_rewritten_words(rest, newroot, rw, set_root, true)
            }
        } else {
            seq![w] + spec_rewritten_words(rest, newroot, rw, set_root, set_rw)
        }
    }
}

/// The continuation of a space join: a space before each remaining word.
pub open spec fn spec_join_rest(ws: Seq<Seq<char>>) -> Seq<char>
    decreases ws.len(),
{
    if ws.len() == 0 {
        Seq::empty()
    } else {
        " "@ + ws[0] + spec_join_rest(ws.drop_first())
    }
}

/// The words joined with single spaces.
pub open spec fn spec_join_space(ws: Seq<Seq<char>>) -> Seq<char> {
    if ws.len() == 0 {
        Seq::empty()
    } else {
        ws[0] + spec_join_rest(ws.drop_first())
    }
}

/// What rewriting a command line for a new root device and mount mode
/// yields: its words rewritten and joined with single spaces.
pub open spec fn spec_update_rootfs(s: Seq<char>, newroot: Seq<char>, rw: bool) -> Seq<char> {
    spec_join_space(spec_rewritten_words(spec_words(s), newroot, rw, false, false))
}

/// The views of a vector of owned words.
pub open spec fn word_views(ws: Seq<String>) -> Seq<Seq<char>> {
    ws.map_values(|w: String| w@)
}

/// Split a string into its whitespace-separated words, each copied out.
#[verifier::loop_isolation(false)]
fn split_words(s: &str) -> (r: Vec<String>)
    ensures
        word_views(r@) == spec_words(s@),
{
    let n = s.unicode_len();
    let mut out: Vec<String> = Vec::new();
    let mut p: usize = 0;
    proof {
        assert(s@.skip(0) =~= s@);
        assert(word_views(out@) =~= Seq::<Seq<char>>::empty());
        assert(word_views(out@) + spec_words(s@) =~= spec_words(s@));
    }
    loop
        invariant
            p <= n,
            spec_words(s@) == word_views(out@) + spec_words(s@.skip(p as int)),
        decreases n - p,
    {
        if p >= n {
            proof {
                assert(s@.skip(n as int) =~= Seq::<char>::empty());
                assert(word_views(out@) + spec_words(s@.skip(n as int)) =~= word_views(out@));
            }
            return out;
        }
        let c = s.get_char(p);
        if is_ascii_ws(c) {
            proof {
                assert(s@.skip(p as int).drop_first() =~= s@.skip(p as int + 1));
            }
            p = p + 1;
        } else {
            let k = word_end_from(s, p, n);
            let ghost sp = s@.skip(p as int);
            let ghost klen = spec_word_end(sp);
            let ghost w = sp.take(klen);
            let word = s.substring_char(p, k).to_owned();
            proof {
                assert(w =~= s@.subrange(p as int, k as int));
                assert(spec_words(sp) == seq![w] + spec_words(sp.skip(klen)));
                assert(sp.skip(klen) =~= s@.skip(k as int));
            }
            let ghost old_out = out@;
            out.push(word);
            proof {
                assert(word_views(out@) =~= word_views(old_out).push(w));
                assert(word_views(old_out).push(w) =~= word_views(old_out) + seq![w]);
                assert((word_views(old_out) + seq![w]) + spec_words(s@.skip(k as int))
                    =~= word_views(old_out) + (seq![w] + spec_words(s@.skip(k as int))));
            }
            p = k;
        }
    }
}

/// Rewrite a kernel command line to boot from a new root device with the
/// requested mount mode, leaving all other words in place.
#[verifier::loop_isolation(false)]
pub fn update_rootfs(cmdline: &str, new_rootfs: &str, rw: bool) -> (r: String)
    ensures
        r@ == spec_update_rootfs(cmdline@, new_rootfs@, rw),
{
    let words = split_words(cmdline);
    let ghost full = word_views(words@);
    let n = words.len();

    let mut out: Vec<String> = Vec::new();
    let mut set_root = false;
    let mut set_rw = false;
    let mut i: usize = 0;
    proof {
        assert(full.skip(0) =~= full);
        assert(word_views(out@) =~= Seq::<Seq<char>>::empty());
        assert(word_views(out@) + spec_rewritten_words(full, new_rootfs@, rw, false, false)
            =~= spec_rewritten_words(full, new_rootfs@, rw, false, false));
    }
    while i < n
        invariant
            i <= n,
            n == words@.len(),
            spec_rewritten_words(full, new_rootfs@, rw, false, false) == word_views(out@)
                + spec_rewritten_words(full.skip(i as int), new_rootfs@, rw, set_root, set_rw),
        decreases n - i,
    {
        let w = &words[i];
        let ghost wv = full[i as int];
        proof {
            assert(wv == words@[i as int]@);
            assert(full.skip(i as int)[0] == wv);
            assert(full.skip(i as int).drop_first() =~= full.skip(i as int + 1));
        }
        let wlen = w.as_str().unicode_len();
        let is_root = if wlen >= 5 {
            str_eq(w.as_str().substring_char(0, 5), "root=")
        } else {
            false
        };
        proof {
            if wlen >= 5 {
                assert(wv.take(5) =~= wv.subrange(0, 5));
            }
            assert(is_root == spec_is_root_word(wv));
        }
        let ghost old_out = out@;
        let ghost old_set_root = set_root;
        let ghost old_set_rw = set_rw;
        if is_root {
            if !set_root {
                let mut nw = "root=".to_owned();
                nw.append(new_rootfs);
                out.push(nw);
            }
            set_root = true;
        } else if str_eq(w.as_str(), "ro") || str_eq(w.as_str(), "rw") {
            if !set_rw {
                let nw = if rw {
                    "rw".to_owned()
                } else {
                    "ro".to_owned()
                };
                out.push(nw);
            }
            set_rw = true;
        } else {
            out.push(w.clone());
        }
        proof {
            if out@ =~= old_out {
                assert(word_views(out@) =~= word_views(old_out));
            } else {
                assert(word_views(out@) =~= word_views(old_out).push(out@.last()@));
                assert(word_views(old_out).push(out@.last()@) =~= word_views(old_out) + seq![
                    out@.last()@,
                ]);
            }
            assert(word_views(out@) + spec_rewritten_words(
                full.skip(i as int + 1),
                new_rootfs@,
                rw,
                set_root,
                set_rw,
            ) =~= spec_rewritten_words(full, new_rootfs@, rw, false, false));
        }
        i = i + 1;
    }
    proof {
        assert(full.skip(n as int) =~= Seq::<Seq<char>>::empty());
    }
    if !set_root {
        let mut nw = "root=".to_owned();
        nw.append(new_rootfs);
        let ghost old_out = out@;
        out.push(nw);
        proof {
            assert(word_views(out@) =~= word_views(old_out) + seq![spec_root_word(new_rootfs@)]);
        }
    }
    if !set_rw {
        let nw = if rw {
            "rw".to_owned()
        } else {
            "ro".to_owned()
        };
        let ghost old_out = out@;
        out.push(nw);
        proof {
            assert(word_views(out@) =~= word_views(old_out) + seq![spec_rw_word(rw)]);
        }
    }
    let ghost rewritten = spec_rewritten_words(full, new_rootfs@, rw, false, false);
    proof {
        assert(word_views(out@) =~= rewritten);
    }

    let mut r = String::new();
    let m = out.len();
    if m == 0 {
        return r;
    }
    r.append(out[0].as_str());
    let mut j: usize = 1;
    proof {
        assert(rewritten.skip(1) =~= rewritten.drop_first());
    }
    while j < m
        invariant
            1 <= j <= m,
            m == out@.len(),
            word_views(out@) == rewritten,
            spec_join_space(rewritten) == r@ + spec_join_rest(rewritten.skip(j as int)),
        decreases m - j,
    {
        proof {
            assert(rewritten.skip(j as int)[0] == rewritten[j as int]);
            assert(rewritten.skip(j as int).drop_first() =~= rewritten.skip(j as int + 1));
        }
        r.append(" ");
        r.append(out[j].as_str());
        j = j + 1;
    }
    proof {
        assert(rewritten.skip(m as int) =~= Seq::<Seq<char>>::empty());
    }
    r
}

} // verus!
