//! The command line.

use crate::color::{behind_hash, pairs_color, parse_color, Color};
use crate::text::{number_u32, parse_u32, same_text};
use vstd::prelude::*;
use vstd::utf8::encode_utf8;

verus! {

/// The border width unless another one is asked for: four points.
pub const DEFAULT_WIDTH: i64 = 262_144;

/// The corner radius unless another one is asked for: ten points.
pub const DEFAULT_RADIUS: i64 = 655_360;

/// Words by what they say.
pub open spec fn words(args: Seq<String>) -> Seq<Seq<char>> {
    args.map_values(|s: String| s@)
}

pub open spec fn flag_words(flags: Seq<&str>) -> Seq<Seq<char>> {
    flags.map_values(|s: &str| s@)
}

/// The place behind the first of the arguments that is one of the flags; `None` if
/// there is no such place.
pub open spec fn value_place(args: Seq<Seq<char>>, flags: Seq<Seq<char>>) -> Option<int>
    decreases args.len(),
{
    if args.len() == 0 {
        None
    } else if flags.contains(args[0]) {
        if args.len() > 1 {
            Some(1)
        } else {
            None
        }
    } else {
        match value_place(args.skip(1), flags) {
            Some(i) => Some(i + 1),
            None => None,
        }
    }
}

/// The argument behind the first one that is one of the flags, if there is one.
pub open spec fn value_of(args: Seq<Seq<char>>, flags: Seq<Seq<char>>) -> Option<Seq<char>> {
    match value_place(args, flags) {
        Some(i) => Some(args[i]),
        None => None,
    }
}

fn is_flag(word: &str, flags: &[&str]) -> (r: bool)
    ensures
        r == flag_words(flags@).contains(word@),
{
    for i in 0..flags.len()
        invariant
            forall|j: int| 0 <= j < i ==> flags@[j]@ != word@,
    {
        if same_text(word, flags[i]) {
            assert(flag_words(flags@)[i as int] == word@);
            return true;
        }
    }
    false
}

/// Finds the place of a flag's value.
fn flag_place(args: &[String], flags: &[&str]) -> (r: Option<usize>)
    ensures
        match r {
            Some(i) => i < args@.len() && value_place(words(args@), flag_words(flags@)) == Some(
                i as int,
            ),
            None => value_place(words(args@), flag_words(flags@)) is None,
        },
{
    let ghost all = words(args@);
    let ghost wanted = flag_words(flags@);
    assert(all.skip(0) =~= all);
    for i in 0..args.len()
        invariant
            all == words(args@),
            wanted == flag_words(flags@),
            value_place(all, wanted) == (match value_place(all.skip(i as int), wanted) {
                Some(k) => Some(k + i),
                None => None,
            }),
    {
        assert(all.skip(i as int).skip(1) =~= all.skip(i + 1));
        assert(all.skip(i as int)[0] == args@[i as int]@);
        if is_flag(args[i].as_str(), flags) {
            if i + 1 < args.len() {
                return Some(i + 1);
            } else {
                return None;
            }
        }
    }
    None
}

/// The value of a flag, which may have several spellings.
pub fn flag_value<'a>(args: &'a [String], flags: &[&str]) -> (r: Option<&'a str>)
    ensures
        match r {
            Some(v) => value_of(words(args@), flag_words(flags@)) == Some(v@),
            None => value_of(words(args@), flag_words(flags@)) is None,
        },
{
    match flag_place(args, flags) {
        Some(i) => Some(args[i].as_str()),
        None => None,
    }
}

/// Whether a word is among the arguments.
fn has_word(args: &[String], word: &str) -> (r: bool)
    ensures
        r == words(args@).contains(word@),
{
    for i in 0..args.len()
        invariant
            forall|j: int| 0 <= j < i ==> args@[j]@ != word@,
    {
        if same_text(args[i].as_str(), word) {
            assert(words(args@)[i as int] == word@);
            return true;
        }
    }
    false
}

/// What to draw borders around, and how.
#[derive(Clone, Copy, Debug, PartialEq, Eq, Structural)]
pub struct Options {
    pub border_width: i64,
    pub radius: i64,
    pub active_color: Color,
    pub inactive_color: Color,
    pub active_only: bool,
    /// The one window to draw a border around; `None` for all of them.
    pub target: Option<u32>,
}

/// What the user asks for.
#[derive(Clone, Copy, Debug, PartialEq, Eq, Structural)]
pub enum Invocation {
    Help,
    List,
    Run(Options),
}

/// The length behind a flag, in units, or the usual one if there is none or it is not
/// written as a number.
pub open spec fn length_of(
    args: Seq<Seq<char>>,
    lengths: Seq<Option<i64>>,
    flags: Seq<Seq<char>>,
    usual: i64,
) -> i64 {
    match value_place(args, flags) {
        Some(i) => match lengths[i] {
            Some(v) => v,
            None => usual,
        },
        None => usual,
    }
}

/// The color behind a flag, or the usual one if there is none or it is not written as
/// a color.
pub open spec fn color_of(args: Seq<Seq<char>>, flags: Seq<Seq<char>>, usual: Color) -> Color {
    match value_of(args, flags) {
        Some(v) => match pairs_color(behind_hash(encode_utf8(v))) {
            Some(c) => c,
            None => usual,
        },
        None => usual,
    }
}

/// The focused window's border color unless another one is asked for: `#5294e2`.
pub open spec fn usual_active() -> Color {
    Color { r: 0x52, g: 0x94, b: 0xe2, a: 0xff }
}

/// The other windows' border color unless another one is asked for: `#59595980`.
pub open spec fn usual_inactive() -> Color {
    Color { r: 0x59, g: 0x59, b: 0x59, a: 0x80 }
}

/// The window that the first argument behind the program's name gives by its number.
pub open spec fn target_of(args: Seq<Seq<char>>) -> Option<u32> {
    if args.len() > 1 {
        number_u32(encode_utf8(args[1]))
    } else {
        None
    }
}

/// What the arguments, with the program's name first, ask for. `lengths` holds what
/// each argument reads as, in units, if it reads as a number.
pub open spec fn invocation(args: Seq<Seq<char>>, lengths: Seq<Option<i64>>) -> Invocation {
    let color_flags = seq!["--color"@, "-c"@];
    let inactive_flags = seq!["--inactive"@, "-i"@];
    if args.contains("--help"@) || args.contains("-h"@) {
        Invocation::Help
    } else if args.len() > 1 && args[1] == "--list"@ {
        Invocation::List
    } else {
        Invocation::Run(
            Options {
                border_width: length_of(args, lengths, seq!["--width"@, "-w"@], DEFAULT_WIDTH),
                radius: length_of(args, lengths, seq!["--radius"@, "-r"@], DEFAULT_RADIUS),
                active_color: color_of(args, color_flags, usual_active()),
                inactive_color: color_of(args, inactive_flags, usual_inactive()),
                active_only: args.contains("--active-only"@),
                target: target_of(args),
            },
        )
    }
}

fn read_length(args: &[String], lengths: &[Option<i64>], flags: &[&str], usual: i64) -> (r: i64)
    requires
        lengths@.len() == args@.len(),
    ensures
        r == length_of(words(args@), lengths@, flag_words(flags@), usual),
{
    match flag_place(args, flags) {
        Some(i) => match lengths[i] {
            Some(v) => v,
            None => usual,
        },
        None => usual,
    }
}

fn read_color(args: &[String], flags: &[&str], usual: Color) -> (r: Color)
    ensures
        r == color_of(words(args@), flag_words(flags@), usual),
{
    match flag_value(args, flags) {
        Some(v) => match parse_color(v) {
            Some(c) => c,
            None => usual,
        },
        None => usual,
    }
}

/// Reads the command line.
pub fn read_invocation(args: &[String], lengths: &[Option<i64>]) -> (r: Invocation)
    requires
        lengths@.len() == args@.len(),
    ensures
        r == invocation(words(args@), lengths@),
{
    if has_word(args, "--help") || has_word(args, "-h") {
        return Invocation::Help;
    }
    if args.len() > 1 && same_text(args[1].as_str(), "--list") {
        return Invocation::List;
    }
    let width_flags: [&str; 2] = ["--width", "-w"];
    let radius_flags: [&str; 2] = ["--radius", "-r"];
    let color_flags: [&str; 2] = ["--color", "-c"];
    let inactive_flags: [&str; 2] = ["--inactive", "-i"];
    assert(flag_words(width_flags@) =~= seq!["--width"@, "-w"@]);
    assert(flag_words(radius_flags@) =~= seq!["--radius"@, "-r"@]);
    assert(flag_words(color_flags@) =~= seq!["--color"@, "-c"@]);
    assert(flag_words(inactive_flags@) =~= seq!["--inactive"@, "-i"@]);
    Invocation::Run(
        Options {
            border_width: read_length(args, lengths, &width_flags, DEFAULT_WIDTH),
            radius: read_length(args, lengths, &radius_flags, DEFAULT_RADIUS),
            active_color: read_color(
                args,
                &color_flags,
                Color { r: 0x52, g: 0x94, b: 0xe2, a: 0xff },
            ),
            inactive_color: read_color(
                args,
                &inactive_flags,
                Color { r: 0x59, g: 0x59, b: 0x59, a: 0x80 },
            ),
            active_only: has_word(args, "--active-only"),
            target: if args.len() > 1 {
                parse_u32(args[1].as_str())
            } else {
                None
            },
        },
    )
}

/// The value of a flag stands behind the first argument that is one of its spellings.
pub proof fn law_values_stand_behind_their_flags(
    args: Seq<Seq<char>>,
    flags: Seq<Seq<char>>,
    i: int,
)
    ensures
        value_place(args, flags) == Some(i) <==> {
            &&& 1 <= i < args.len()
            &&& flags.contains(args[i - 1])
            &&& forall|j: int| 0 <= j < i - 1 ==> !flags.contains(#[trigger] args[j])
        },
        value_of(args, flags) is Some <==> value_place(args, flags) is Some,
        value_place(args, flags) == Some(i) ==> value_of(args, flags) == Some(args[i]),
    decreases args.len(),
{
    if args.len() > 0 {
        let rest = args.skip(1);
        law_values_stand_behind_their_flags(rest, flags, i - 1);
        assert(forall|j: int| 0 <= j < rest.len() ==> #[trigger] rest[j] == args[j + 1]);
        if 1 < i < args.len() {
            assert(rest[i - 2] == args[i - 1]);
            if !flags.contains(args[0]) && forall|j: int|
                0 <= j < i - 2 ==> !flags.contains(#[trigger] rest[j]) {
                assert forall|j: int| 0 <= j < i - 1 implies !flags.contains(#[trigger] args[j]) by {
                    if j > 0 {
                        assert(rest[j - 1] == args[j]);
                    }
                }
            }
        }
    }
}

/// The argument at place `i` is the first one with that meaning, in one of its two
/// spellings.
pub open spec fn first_at(
    args: Seq<Seq<char>>,
    long: Seq<char>,
    short: Seq<char>,
    i: int,
) -> bool {
    &&& 0 <= i < args.len()
    &&& args[i] == long || args[i] == short
    &&& forall|j: int| 0 <= j < i ==> #[trigger] args[j] != long && args[j] != short
}

/// No argument has that meaning.
pub open spec fn absent(args: Seq<Seq<char>>, long: Seq<char>, short: Seq<char>) -> bool {
    forall|j: int| 0 <= j < args.len() ==> #[trigger] args[j] != long && args[j] != short
}

proof fn lemma_flag(args: Seq<Seq<char>>, long: Seq<char>, short: Seq<char>, i: int)
    ensures
        first_at(args, long, short, i) && i + 1 < args.len() ==> value_place(
            args,
            seq![long, short],
        ) == Some(i + 1),
        first_at(args, long, short, i) && i + 1 == args.len() ==> value_place(
            args,
            seq![long, short],
        ) is None,
        absent(args, long, short) ==> value_place(args, seq![long, short]) is None,
{
    let flags = seq![long, short];
    assert(flags[0] == long && flags[1] == short);
    assert(forall|w: Seq<char>| #[trigger] flags.contains(w) <==> w == long || w == short);
    law_values_stand_behind_their_flags(args, flags, i + 1);
    if value_place(args, flags) is Some {
        let k = value_place(args, flags)->0;
        law_values_stand_behind_their_flags(args, flags, k);
        assert(flags.contains(args[k - 1]));
        if first_at(args, long, short, i) && i < k - 1 {
            assert(!flags.contains(args[i]));
        }
    }
}

/// The arguments ask for help if `--help` or `-h` is among them, and else for the listing
/// if `--list` comes first, and else for borders.
pub proof fn law_what_is_asked_for(args: Seq<Seq<char>>, lengths: Seq<Option<i64>>)
    ensures
        invocation(args, lengths) is Help <==> args.contains("--help"@) || args.contains("-h"@),
        invocation(args, lengths) is List <==> !args.contains("--help"@) && !args.contains("-h"@)
            && args.len() > 1 && args[1] == "--list"@,
        invocation(args, lengths) matches Invocation::Run(o) ==> {
            &&& o.active_only <==> args.contains("--active-only"@)
            &&& args.len() <= 1 ==> o.target is None
            &&& args.len() > 1 ==> o.target == number_u32(encode_utf8(args[1]))
        },
{
}

/// The width and the radius are the lengths behind the first `--width` or `-w` and the
/// first `--radius` or `-r`; four and ten points if there is none, or no number.
pub proof fn law_lengths_are_as_asked(
    args: Seq<Seq<char>>,
    lengths: Seq<Option<i64>>,
    o: Options,
    i: int,
)
    requires
        invocation(args, lengths) == Invocation::Run(o),
    ensures
        first_at(args, "--width"@, "-w"@, i) && i + 1 < args.len() && lengths[i + 1] is Some
            ==> o.border_width == lengths[i + 1]->0,
        first_at(args, "--width"@, "-w"@, i) && (i + 1 == args.len() || lengths[i + 1] is None)
            ==> o.border_width == 4 * crate::geometry::POINT,
        absent(args, "--width"@, "-w"@) ==> o.border_width == 4 * crate::geometry::POINT,
        first_at(args, "--radius"@, "-r"@, i) && i + 1 < args.len() && lengths[i + 1] is Some
            ==> o.radius == lengths[i + 1]->0,
        first_at(args, "--radius"@, "-r"@, i) && (i + 1 == args.len() || lengths[i + 1] is None)
            ==> o.radius == 10 * crate::geometry::POINT,
        absent(args, "--radius"@, "-r"@) ==> o.radius == 10 * crate::geometry::POINT,
{
    lemma_flag(args, "--width"@, "-w"@, i);
    lemma_flag(args, "--radius"@, "-r"@, i);
}

/// The colors are those behind the first `--color` or `-c` and the first `--inactive` or
/// `-i`; `#5294e2` and `#59595980` if there is none, or it is not written as a color.
pub proof fn law_colors_are_as_asked(
    args: Seq<Seq<char>>,
    lengths: Seq<Option<i64>>,
    o: Options,
    i: int,
)
    requires
        invocation(args, lengths) == Invocation::Run(o),
    ensures
        ({
            let read = pairs_color(behind_hash(encode_utf8(args[i + 1])));
            let usual = Color { r: 0x52, g: 0x94, b: 0xe2, a: 0xff };
            let usual_other = Color { r: 0x59, g: 0x59, b: 0x59, a: 0x80 };
            let active = first_at(args, "--color"@, "-c"@, i);
            let inactive = first_at(args, "--inactive"@, "-i"@, i);
            let last = i + 1 == args.len();
            &&& active && !last && read is Some ==> o.active_color == read->0
            &&& active && (last || read is None) ==> o.active_color == usual
            &&& absent(args, "--color"@, "-c"@) ==> o.active_color == usual
            &&& inactive && !last && read is Some ==> o.inactive_color == read->0
            &&& inactive && (last || read is None) ==> o.inactive_color == usual_other
            &&& absent(args, "--inactive"@, "-i"@) ==> o.inactive_color == usual_other
        }),
{
    lemma_flag(args, "--color"@, "-c"@, i);
    lemma_flag(args, "--inactive"@, "-i"@, i);
}

}
