//! How files are picked and read, and what an analysis holds.
use vstd::prelude::*;
use vstd::string::*;

use super::{
    analysis_result, base_name, before, by_number, clip_id_of, clip_outcome, clip_warnings_upto,
    clips_upto, digits_value, ends_with, keyed, number_value, offered, offered_analyzed,
    parsed_upto, placed, playlist_number_of, playlist_warnings_upto, selected, stripped,
    without_menus, BdmvAnalysis, BdmvError, ClipFile, ClipFiles, PlaylistFile, PlaylistOutcome,
};
use crate::analysis::{
    analyzed, distinct, ig_clips_in, loops, main_title_of, members_of, unreferenced_in,
};
use crate::clpi::{file_clip, ClipModel};
use crate::keydb::ascii_lower;
use crate::mpls::{playlists_of, PlaylistModel};
use crate::reader::ReaderError;
use crate::seqs::{law_sorting_is_stable, stable_sorted};
use crate::text::laws::{law_decimal_reads_back, read_decimal};
use crate::text::decimal;

verus! {

// ---------------------------------------------------------------------------
// Names
// ---------------------------------------------------------------------------

/// A name ends with a suffix exactly if its last characters are the same up to
/// case.
pub proof fn law_endings(name: Seq<char>, suffix: Seq<char>)
    ensures
        ends_with(name, suffix) <==> name.len() >= suffix.len() && forall|i: int|
            name.len() - suffix.len() <= i < name.len() ==> ascii_lower(#[trigger] name[i])
                == ascii_lower(suffix[i - (name.len() - suffix.len())]),
{
    let shift = name.len() - suffix.len();
    if ends_with(name, suffix) {
        assert forall|i: int| shift <= i < name.len() implies ascii_lower(#[trigger] name[i])
            == ascii_lower(suffix[i - shift]) by {
            assert(ascii_lower(name[shift + (i - shift)]) == ascii_lower(suffix[i - shift]));
        }
    }
    if name.len() >= suffix.len() && forall|i: int|
        shift <= i < name.len() ==> ascii_lower(#[trigger] name[i]) == ascii_lower(
            suffix[i - shift],
        ) {
        assert forall|i: int| 0 <= i < suffix.len() implies ascii_lower(
            #[trigger] name[name.len() - suffix.len() + i],
        ) == ascii_lower(suffix[i]) by {
            assert(ascii_lower(name[shift + i]) == ascii_lower(suffix[shift + i - shift]));
        }
    }
}

/// Whether `a` and `b` agree up to place `k`, and there `a` ends or has the
/// smaller character.
pub open spec fn smaller_at(a: Seq<char>, b: Seq<char>, k: int) -> bool {
    &&& 0 <= k <= a.len()
    &&& k < b.len()
    &&& k == a.len() || a[k] < b[k]
    &&& forall|j: int| 0 <= j < k ==> #[trigger] a[j] == b[j]
}

/// A text is before another one exactly if, at the first place where they do
/// not agree, it ends or has the smaller character.
pub proof fn law_order_of_texts(a: Seq<char>, b: Seq<char>)
    ensures
        before(a, b) <==> exists|k: int| #[trigger] smaller_at(a, b, k),
    decreases a.len(),
{
    if b.len() > 0 && a.len() > 0 && a[0] == b[0] {
        let (s, t) = (a.skip(1), b.skip(1));
        law_order_of_texts(s, t);
        if before(a, b) {
            let k = choose|k: int| #[trigger] smaller_at(s, t, k);
            assert forall|j: int| 0 <= j < k + 1 implies #[trigger] a[j] == b[j] by {
                if j > 0 {
                    assert(s[j - 1] == t[j - 1]);
                }
            }
            assert(smaller_at(a, b, k + 1));
        }
        if exists|k: int| #[trigger] smaller_at(a, b, k) {
            let k = choose|k: int| #[trigger] smaller_at(a, b, k);
            assert(k > 0);
            assert forall|j: int| 0 <= j < k - 1 implies #[trigger] s[j] == t[j] by {
                assert(a[j + 1] == b[j + 1]);
            }
            assert(smaller_at(s, t, k - 1));
        }
    } else if b.len() > 0 {
        if before(a, b) {
            assert(smaller_at(a, b, 0));
        }
        if exists|k: int| #[trigger] smaller_at(a, b, k) {
            let k = choose|k: int| #[trigger] smaller_at(a, b, k);
            if k > 0 {
                assert(a[0] == b[0]);
            }
        }
    }
}

proof fn lemma_order(a: Seq<char>, b: Seq<char>, c: Seq<char>)
    requires
        !before(b, a),
        !before(c, b),
    ensures
        !before(c, a),
    decreases a.len(),
{
    if a.len() > 0 && b.len() > 0 && c.len() > 0 && a[0] == b[0] && b[0] == c[0] {
        lemma_order(a.skip(1), b.skip(1), c.skip(1));
    }
}

proof fn lemma_one_order(a: Seq<char>, b: Seq<char>)
    requires
        before(a, b),
    ensures
        !before(b, a),
    decreases a.len(),
{
    if a.len() > 0 && b.len() > 0 && a[0] == b[0] {
        lemma_one_order(a.skip(1), b.skip(1));
    }
}

proof fn lemma_placed(names: Seq<Seq<char>>, name: Seq<char>, i: int) -> (p: int)
    requires
        0 <= i <= names.len(),
    ensures
        i <= p <= names.len(),
        placed(names, name, i) == names.insert(p, name),
        forall|j: int| i <= j < p ==> !before(name, #[trigger] names[j]),
        p < names.len() ==> before(name, names[p]),
    decreases names.len() - i,
{
    if i >= names.len() || before(name, names[i]) {
        i
    } else {
        lemma_placed(names, name, i + 1)
    }
}

/// The names that end with a suffix are picked, each once, and none other, and
/// they are put in order.
pub proof fn law_names_picked_in_order(names: Seq<Seq<char>>, suffix: Seq<char>) -> (from: Seq<int>)
    ensures
        ({
            let list = selected(names, suffix);
            &&& from.len() == list.len()
            &&& forall|i: int|
                0 <= i < list.len() ==> 0 <= #[trigger] from[i] < names.len() && list[i]
                    == names[from[i]] && ends_with(list[i], suffix)
            &&& forall|i: int, j: int|
                0 <= i < j < list.len() ==> #[trigger] from[i] != #[trigger] from[j] && !before(
                    list[j],
                    list[i],
                )
            &&& forall|k: int|
                0 <= k < names.len() && ends_with(#[trigger] names[k], suffix) ==> from.contains(k)
        }),
    decreases names.len(),
{
    if names.len() == 0 {
        seq![]
    } else {
        let n = names.len() - 1;
        let name = names.last();
        let rest = selected(names.drop_last(), suffix);
        let old = law_names_picked_in_order(names.drop_last(), suffix);
        assert forall|i: int| 0 <= i < rest.len() implies 0 <= #[trigger] old[i] < n && rest[i]
            == names[old[i]] by {}
        if ends_with(name, suffix) {
            let p = lemma_placed(rest, name, 0);
            let list = selected(names, suffix);
            let from = old.insert(p, n);
            assert forall|i: int| 0 <= i < list.len() implies 0 <= #[trigger] from[i] < names.len()
                && list[i] == names[from[i]] && ends_with(list[i], suffix) by {
                if i < p {
                    assert(from[i] == old[i]);
                } else if i > p {
                    assert(from[i] == old[i - 1]);
                }
            }
            assert forall|i: int, j: int| 0 <= i < j < list.len() implies #[trigger] from[i]
                != #[trigger] from[j] && !before(list[j], list[i]) by {
                let a = if i < p {
                    i
                } else {
                    i - 1
                };
                let b = if j < p {
                    j
                } else {
                    j - 1
                };
                if i == p {
                    assert(from[j] == old[b]);
                    lemma_one_order(name, rest[p]);
                    if p < b {
                        assert(old[p] != old[b]);
                        lemma_order(name, rest[p], rest[b]);
                    }
                } else if j == p {
                    assert(from[i] == old[a]);
                    assert(!before(name, rest[a]));
                } else {
                    assert(from[i] == old[a] && from[j] == old[b]);
                }
            }
            assert forall|k: int|
                0 <= k < names.len() && ends_with(#[trigger] names[k], suffix) implies
                from.contains(k) by {
                if k == n {
                    assert(from[p] == k);
                } else {
                    assert(names.drop_last()[k] == names[k]);
                    let i = choose|i: int| 0 <= i < old.len() && old[i] == k;
                    if i < p {
                        assert(from[i] == k);
                    } else {
                        assert(from[i + 1] == k);
                    }
                }
            }
            from
        } else {
            assert forall|k: int|
                0 <= k < names.len() && ends_with(#[trigger] names[k], suffix) implies
                old.contains(k) by {
                assert(names.drop_last()[k] == names[k]);
            }
            old
        }
    }
}

/// A name without its extension: `base` is left of `base` and the extension,
/// in lower or in upper case.
pub proof fn law_extensions_stripped(base: Seq<char>, low: Seq<char>, high: Seq<char>)
    ensures
        base_name(base + low, low, high) == Some(base),
        stripped(base + high, low) is None ==> base_name(base + high, low, high) == Some(base),
{
    assert((base + low).skip(base.len() as int) =~= low);
    assert((base + low).take(base.len() as int) =~= base);
    assert((base + high).skip(base.len() as int) =~= high);
    assert((base + high).take(base.len() as int) =~= base);
}

/// A name with another ending has no base.
pub proof fn law_other_extensions(name: Seq<char>, low: Seq<char>, high: Seq<char>)
    requires
        forall|base: Seq<char>| name != #[trigger] (base + low),
        forall|base: Seq<char>| name != #[trigger] (base + high),
    ensures
        base_name(name, low, high) is None,
{
    if name.len() >= low.len() {
        let base = name.take(name.len() - low.len());
        assert(base + name.skip(name.len() - low.len()) =~= name);
        assert(name != base + low);
    }
    if name.len() >= high.len() {
        let base = name.take(name.len() - high.len());
        assert(base + name.skip(name.len() - high.len()) =~= name);
        assert(name != base + high);
    }
}

proof fn lemma_digits_pushed(text: Seq<char>, c: char, value: nat)
    ensures
        digits_value(text.push(c), value) == (match digits_value(text, value) {
            Some(m) => if '0' <= c <= '9' && 10 * m + (c as u32 - 48) <= u32::MAX {
                Some((10 * m + (c as u32 - 48)) as u32)
            } else {
                None
            },
            None => None,
        }),
    decreases text.len(),
{
    reveal_with_fuel(digits_value, 3);
    let all = text.push(c);
    if text.len() == 0 {
        assert(all.skip(1) =~= seq![]);
    } else {
        assert(all[0] == text[0]);
        assert(all.skip(1) =~= text.skip(1).push(c));
        if value <= u32::MAX && '0' <= text[0] <= '9' {
            lemma_digits_pushed(text.skip(1), c, value * 10 + (text[0] as u32 - 48) as nat);
        }
    }
}

proof fn lemma_digits_read(text: Seq<char>)
    ensures
        match digits_value(text, 0) {
            Some(n) => read_decimal(text) == n && forall|i: int|
                0 <= i < text.len() ==> '0' <= #[trigger] text[i] <= '9',
            None => read_decimal(text) > u32::MAX || exists|i: int|
                0 <= i < text.len() && !('0' <= #[trigger] text[i] <= '9'),
        },
    decreases text.len(),
{
    if text.len() > 0 {
        let init = text.drop_last();
        lemma_digits_read(init);
        lemma_digits_pushed(init, text.last(), 0);
        assert(init.push(text.last()) =~= text);
        match digits_value(init, 0) {
            Some(_) => {
                if digits_value(text, 0) is None {
                    assert(text[text.len() - 1] == text.last());
                } else {
                    assert forall|i: int| 0 <= i < text.len() implies '0' <= #[trigger] text[i]
                        <= '9' by {
                        if i < init.len() {
                            assert('0' <= init[i] <= '9');
                        }
                    }
                }
            },
            None => {
                if exists|i: int| 0 <= i < init.len() && !('0' <= #[trigger] init[i] <= '9') {
                    let i = choose|i: int|
                        0 <= i < init.len() && !('0' <= #[trigger] init[i] <= '9');
                    assert(text[i] == init[i]);
                } else if '0' <= text.last() <= '9' {
                    assert(read_decimal(text) >= 10 * read_decimal(init));
                } else {
                    assert(text[text.len() - 1] == text.last());
                }
            },
        }
    }
}

/// A text without the plus sign in front of it.
pub open spec fn without_sign(text: Seq<char>) -> Seq<char> {
    if text.len() > 0 && text[0] == '+' {
        text.subrange(1, text.len() as int)
    } else {
        text
    }
}

/// The number that a text writes: one or more digits, behind a plus sign if
/// there is one, of which the value fits 32 bits. Any other text writes none.
pub proof fn law_numbers_in_names(text: Seq<char>)
    ensures
        number_value(text) is Some <==> without_sign(text).len() > 0 && (forall|i: int|
            0 <= i < without_sign(text).len() ==> '0' <= #[trigger] without_sign(text)[i] <= '9')
            && read_decimal(without_sign(text)) <= u32::MAX,
        number_value(text) matches Some(n) ==> n == read_decimal(without_sign(text)),
{
    if text.len() > 0 {
        assert(text.skip(1) =~= text.subrange(1, text.len() as int));
    }
    lemma_digits_read(without_sign(text));
}

/// The number of a playlist file named by its number in decimal is that
/// number, with the extension in either case.
pub proof fn law_playlist_files_numbered(n: u32)
    ensures
        playlist_number_of(decimal(n as nat) + ".mpls"@) == n,
        playlist_number_of(decimal(n as nat) + ".MPLS"@) == n,
{
    reveal_strlit(".mpls");
    reveal_strlit(".MPLS");
    let base = decimal(n as nat);
    law_decimal_reads_back(n as nat);
    law_numbers_in_names(base);
    let upper = base + ".MPLS"@;
    assert(upper.skip(upper.len() - 5) =~= ".MPLS"@);
    assert(".MPLS"@[1] != ".mpls"@[1]);
    law_extensions_stripped(base, ".mpls"@, ".MPLS"@);
}

/// A name that writes no number counts as number 0, and so does one without
/// the extension.
pub proof fn law_unnumbered_playlist_files(name: Seq<char>)
    ensures
        ({
            let base = base_name(name, ".mpls"@, ".MPLS"@);
            &&& base is None ==> playlist_number_of(name) == 0
            &&& base is Some && number_value(base->0) is None ==> playlist_number_of(name) == 0
            &&& base is Some && number_value(base->0) is Some ==> playlist_number_of(name)
                == number_value(base->0)->0
        }),
{
}

/// The clip of a file is its name without the extension, in either case; a
/// name without it is kept.
pub proof fn law_clip_files_named(base: Seq<char>, name: Seq<char>)
    ensures
        clip_id_of(base + ".clpi"@) == base,
        clip_id_of(base + ".CLPI"@) == base,
        base_name(name, ".clpi"@, ".CLPI"@) is None ==> clip_id_of(name) == name,
{
    reveal_strlit(".clpi");
    reveal_strlit(".CLPI");
    let upper = base + ".CLPI"@;
    assert(upper.skip(upper.len() - 5) =~= ".CLPI"@);
    assert(".CLPI"@[1] != ".clpi"@[1]);
    law_extensions_stripped(base, ".clpi"@, ".CLPI"@);
}

// ---------------------------------------------------------------------------
// Files
// ---------------------------------------------------------------------------

/// The playlists are those of the files that were parsed, in order.
pub proof fn law_parsed_playlists(files: Seq<PlaylistFile>, n: int)
    requires
        0 < n <= files.len(),
    ensures
        parsed_upto(files, 0).len() == 0,
        files[n - 1].outcome matches PlaylistOutcome::Parsed(p) ==> parsed_upto(files, n)
            == parsed_upto(files, n - 1).push(p),
        !(files[n - 1].outcome is Parsed) ==> parsed_upto(files, n) == parsed_upto(files, n - 1),
{
}

/// Every playlist file that was not parsed has a warning with its number, its
/// directory, its name and what went wrong, in order.
pub proof fn law_playlist_warnings(dir: Seq<char>, files: Seq<PlaylistFile>, n: int)
    requires
        0 < n <= files.len(),
    ensures
        ({
            let before = playlist_warnings_upto(dir, files, n - 1);
            let now = playlist_warnings_upto(dir, files, n);
            let name = files[n - 1].name@;
            let number = playlist_number_of(name);
            &&& playlist_warnings_upto(dir, files, 0).len() == 0
            &&& files[n - 1].outcome is Parsed ==> now == before
            &&& files[n - 1].outcome matches PlaylistOutcome::Unreadable(e) ==> now
                == before.push((number, "failed to read "@ + dir + "/"@ + name + ": "@ + e.text()))
            &&& files[n - 1].outcome matches PlaylistOutcome::Malformed(e) ==> now
                == before.push((number, "failed to parse "@ + dir + "/"@ + name + ": "@ + e@))
        }),
{
}

/// A clip file that was read gives its clip, under the name of the file. One
/// that was not read or not parsed has a message.
pub proof fn law_clip_outcomes(dir: Seq<char>, file: ClipFile)
    ensures
        ({
            let name = file.name@;
            let result = clip_outcome(dir, file);
            &&& file.read matches Err(e) ==> result == Err::<ClipModel, Seq<char>>(
                "failed to read "@ + dir + "/"@ + name + ": "@ + e.text(),
            )
            &&& file.read matches Ok(data) ==> match file_clip(data@, clip_id_of(name)) {
                Ok(clip) => result == Ok::<ClipModel, Seq<char>>(clip),
                Err(text) => result == Err::<ClipModel, Seq<char>>(
                    "failed to parse "@ + dir + "/"@ + name + ": "@ + text,
                ),
            }
        }),
{
}

/// The clips are those of the files that gave one, and every other file has a
/// warning with its clip, both in order.
pub proof fn law_clips_and_warnings(dir: Seq<char>, files: Seq<ClipFile>, n: int)
    requires
        0 < n <= files.len(),
    ensures
        clips_upto(dir, files, 0).len() == 0,
        clip_warnings_upto(dir, files, 0).len() == 0,
        match clip_outcome(dir, files[n - 1]) {
            Ok(clip) => {
                &&& clips_upto(dir, files, n) == clips_upto(dir, files, n - 1).push(clip)
                &&& clip_warnings_upto(dir, files, n) == clip_warnings_upto(dir, files, n - 1)
            },
            Err(text) => {
                &&& clips_upto(dir, files, n) == clips_upto(dir, files, n - 1)
                &&& clip_warnings_upto(dir, files, n) == clip_warnings_upto(
                    dir,
                    files,
                    n - 1,
                ).push((clip_id_of(files[n - 1].name@), text))
            },
        },
{
}

// ---------------------------------------------------------------------------
// Playlists
// ---------------------------------------------------------------------------

/// Menus are dropped and everything else is kept, in order.
pub proof fn law_menus_dropped(all: Seq<PlaylistModel>, p: PlaylistModel)
    ensures
        without_menus(Seq::empty()).len() == 0,
        loops(p.items) ==> without_menus(all.push(p)) == without_menus(all),
        !loops(p.items) ==> without_menus(all.push(p)) == without_menus(all).push(p),
{
    assert(all.push(p).drop_last() =~= all);
}

/// Sorting by number keeps every playlist once. Lower numbers come first, and
/// equal ones stay in their order.
pub proof fn law_sorted_by_number(all: Seq<PlaylistModel>) -> (from: Seq<int>)
    ensures
        by_number(all).len() == all.len(),
        from.len() == all.len(),
        forall|i: int|
            0 <= i < all.len() ==> 0 <= #[trigger] from[i] < all.len() && by_number(all)[i]
                == all[from[i]],
        forall|k: int| 0 <= k < all.len() ==> #[trigger] from.contains(k),
        forall|i: int, j: int|
            0 <= i < j < all.len() ==> all[#[trigger] from[i]].number
                < all[#[trigger] from[j]].number || (all[from[i]].number == all[from[j]].number
                && from[i] < from[j]),
{
    let pairs = keyed(all);
    let from = law_sorting_is_stable(pairs);
    assert forall|i: int| 0 <= i < all.len() implies 0 <= #[trigger] from[i] < all.len()
        && by_number(all)[i] == all[from[i]] by {
        assert(stable_sorted(pairs)[i] == pairs[from[i]]);
    }
    assert forall|i: int, j: int| 0 <= i < j < all.len() implies all[#[trigger] from[i]].number
        < all[#[trigger] from[j]].number || (all[from[i]].number == all[from[j]].number && from[i]
        < from[j]) by {
        assert(pairs[from[i]].0 == all[from[i]].number);
        assert(pairs[from[j]].0 == all[from[j]].number);
    }
    from
}

/// What a disc offers: the playlists without menus, without duplicates, in
/// order of their numbers. Each is analysed with the members that it has among
/// them.
pub proof fn law_offered_playlists_analysed(all: Seq<PlaylistModel>, i: int)
    requires
        0 <= i < offered(all).len(),
    ensures
        ({
            let kept = without_menus(all);
            let list = offered(all);
            let a = offered_analyzed(all)[i];
            &&& list == by_number(distinct(kept, kept.len() as int))
            &&& offered_analyzed(all).len() == list.len()
            &&& a.number == analyzed(list[i]).number
            &&& a.duration == analyzed(list[i]).duration
            &&& a.chapters == analyzed(list[i]).chapters
            &&& a.segments == analyzed(list[i]).segments
            &&& a.streams == analyzed(list[i]).streams
            &&& a.members == members_of(list, i)
        }),
{
    let list = offered(all);
    if members_of(list, i).len() == 0 {
        assert(members_of(list, i) =~= analyzed(list[i]).members);
    }
}

// ---------------------------------------------------------------------------
// Analysis
// ---------------------------------------------------------------------------

/// What an analysis comes to. A directory that cannot be read is an error, and
/// so is a disc that offers nothing. Else the analysis has what the disc
/// offers, the main title of that, and a warning for every playlist file that
/// was not parsed. No clip counts as used in part, and no title is known.
pub proof fn law_analyses(
    dir: Seq<char>,
    files: Vec<PlaylistFile>,
    clip_files: ClipFiles,
    e: ReaderError,
    result: Result<BdmvAnalysis, BdmvError>,
)
    ensures
        analysis_result(dir, Err(e), clip_files, result) ==> result == Err::<
            BdmvAnalysis,
            BdmvError,
        >(BdmvError::PlaylistDir(e)),
        analysis_result(dir, Ok(files), clip_files, result) ==> ({
            let all = playlists_of(parsed_upto(files@, files@.len() as int));
            let list = offered(all);
            let warned = playlist_warnings_upto(dir, files@, files@.len() as int);
            &&& list.len() == 0 ==> result == Err::<BdmvAnalysis, BdmvError>(
                BdmvError::NoPlaylists,
            )
            &&& list.len() > 0 ==> (result matches Ok(a) && {
                &&& a.playlists@.len() == list.len()
                &&& forall|i: int|
                    0 <= i < list.len() ==> (#[trigger] a.playlists@[i])@ == offered_analyzed(
                        all,
                    )[i]
                &&& a.main_title == main_title_of(list)
                &&& a.warnings@.len() == warned.len()
                &&& forall|i: int|
                    0 <= i < warned.len() ==> (#[trigger] a.warnings@[i]).playlist == warned[i].0
                        && a.warnings@[i].message@ == warned[i].1
                &&& a.partially_used_clips@.len() == 0
                &&& a.title_playlists@ == Set::<u32>::empty()
            })
        }),
{
    if analysis_result(dir, Ok(files), clip_files, result) {
        let all = playlists_of(parsed_upto(files@, files@.len() as int));
        let warned = playlist_warnings_upto(dir, files@, files@.len() as int);
        if offered(all).len() > 0 {
            if let Ok(a) = result {
                let shown = crate::analysis::analyzed_of(a.playlists@);
                assert(shown == offered_analyzed(all));
                assert forall|i: int| 0 <= i < offered(all).len() implies (
                #[trigger] a.playlists@[i])@ == offered_analyzed(all)[i] by {
                    assert(shown[i] == a.playlists@[i]@);
                }
                let told = super::playlist_warnings_of(a.warnings@);
                assert(told == warned);
                assert forall|i: int| 0 <= i < warned.len() implies (
                #[trigger] a.warnings@[i]).playlist == warned[i].0 && a.warnings@[i].message@
                    == warned[i].1 by {
                    assert(told[i] == (a.warnings@[i].playlist, a.warnings@[i].message@));
                }
            }
        }
    }
}

/// What an analysis has of the clips: nothing where there is no directory, and
/// else the menu clips and the clips that no parsed playlist uses, and a
/// warning for every file without a clip.
pub proof fn law_clips_analysed(
    dir: String,
    files: Vec<ClipFile>,
    all: Seq<PlaylistModel>,
    a: BdmvAnalysis,
)
    ensures
        super::clips_entered(None, all, a) ==> a.ig_clips@.len() == 0 && a.unreferenced_clips@.len()
            == 0 && a.clip_warnings@.len() == 0,
        super::clips_entered(Some((dir, files)), all, a) ==> ({
            let clips = clips_upto(dir@, files@, files@.len() as int);
            let menus = ig_clips_in(clips, clips.len() as int);
            let unused = unreferenced_in(clips, all, clips.len() as int);
            let warned = clip_warnings_upto(dir@, files@, files@.len() as int);
            &&& a.ig_clips@.len() == menus.len()
            &&& forall|i: int| 0 <= i < menus.len() ==> (#[trigger] a.ig_clips@[i])@ == menus[i]
            &&& a.unreferenced_clips@.len() == unused.len()
            &&& forall|i: int|
                0 <= i < unused.len() ==> (#[trigger] a.unreferenced_clips@[i])@ == unused[i]
            &&& a.clip_warnings@.len() == warned.len()
            &&& forall|i: int|
                0 <= i < warned.len() ==> (#[trigger] a.clip_warnings@[i]).clip_id@ == warned[i].0
                    && a.clip_warnings@[i].message@ == warned[i].1
        }),
{
    if super::clips_entered(Some((dir, files)), all, a) {
        let clips = clips_upto(dir@, files@, files@.len() as int);
        let menus = ig_clips_in(clips, clips.len() as int);
        let unused = unreferenced_in(clips, all, clips.len() as int);
        let warned = clip_warnings_upto(dir@, files@, files@.len() as int);
        let shown = crate::analysis::ig_clips_of(a.ig_clips@);
        assert(shown == menus);
        assert forall|i: int| 0 <= i < menus.len() implies (#[trigger] a.ig_clips@[i])@
            == menus[i] by {
            assert(shown[i] == a.ig_clips@[i]@);
        }
        let left = crate::analysis::unreferenced_of(a.unreferenced_clips@);
        assert(left == unused);
        assert forall|i: int| 0 <= i < unused.len() implies (
        #[trigger] a.unreferenced_clips@[i])@ == unused[i] by {
            assert(left[i] == a.unreferenced_clips@[i]@);
        }
        let told = super::clip_warnings_of(a.clip_warnings@);
        assert(told == warned);
        assert forall|i: int| 0 <= i < warned.len() implies (
        #[trigger] a.clip_warnings@[i]).clip_id@ == warned[i].0 && a.clip_warnings@[i].message@
            == warned[i].1 by {
            assert(told[i] == (a.clip_warnings@[i].clip_id@, a.clip_warnings@[i].message@));
        }
    }
}

/// What the errors say.
pub proof fn law_messages(e: BdmvError, r: ReaderError)
    ensures
        e matches BdmvError::PlaylistDir(why) ==> e.text()
            == "failed to read playlist directory: "@ + why.text(),
        e is NoPlaylists ==> e.text() == "no valid playlists found after filtering"@,
        r matches ReaderError::NotFound { path } ==> r.text() == "not found: "@ + path@,
        r matches ReaderError::Failed { message } ==> r.text() == message@,
{
}

} // verus!
