//! The configuration of the window tracker, and the command line that it reads.

use crate::color::{behind_hashes, has_pairs, holds_pairs, lenient_color, Color};
use crate::options::words;
use crate::text::{number_i32, number_u32, parse_i32, parse_u32, same_text};
use vstd::prelude::*;
use vstd::utf8::encode_utf8;

verus! {

#[derive(Debug)]
pub struct Config {
    pub border_width: i64,
    pub active_color: Color,
    pub inactive_color: Color,
    pub radius: i64,
    pub hidpi: bool,
    /// Positive above the target, negative below it.
    pub border_order: i32,
    pub active_only: bool,
    pub standalone: bool,
    pub tarmac_socket: Option<String>,
    pub test_wid: Option<u32>,
}

#[verifier::ext_equal]
pub struct ConfigView {
    pub border_width: i64,
    pub active_color: Color,
    pub inactive_color: Color,
    pub radius: i64,
    pub hidpi: bool,
    pub border_order: i32,
    pub active_only: bool,
    pub standalone: bool,
    pub tarmac_socket: Option<Seq<char>>,
    pub test_wid: Option<u32>,
}

impl View for Config {
    type V = ConfigView;

    open spec fn view(&self) -> ConfigView {
        ConfigView {
            border_width: self.border_width,
            active_color: self.active_color,
            inactive_color: self.inactive_color,
            radius: self.radius,
            hidpi: self.hidpi,
            border_order: self.border_order,
            active_only: self.active_only,
            standalone: self.standalone,
            tarmac_socket: match self.tarmac_socket {
                Some(s) => Some(s@),
                None => None,
            },
            test_wid: self.test_wid,
        }
    }
}

/// The configuration without any arguments: four points wide, ten points of radius,
/// `#5294e2` and `#2d2d2d80`, below the target.
pub open spec fn default_config() -> ConfigView {
    ConfigView {
        border_width: 262_144,
        active_color: Color { r: 0x52, g: 0x94, b: 0xe2, a: 0xff },
        inactive_color: Color { r: 0x2d, g: 0x2d, b: 0x2d, a: 0x80 },
        radius: 655_360,
        hidpi: true,
        border_order: -1i32,
        active_only: false,
        standalone: false,
        tarmac_socket: None,
        test_wid: None,
    }
}

impl Default for Config {
    fn default() -> (r: Self)
        ensures
            r@ == default_config(),
    {
        Config {
            border_width: 262_144,
            active_color: Color { r: 0x52, g: 0x94, b: 0xe2, a: 0xff },
            inactive_color: Color { r: 0x2d, g: 0x2d, b: 0x2d, a: 0x80 },
            radius: 655_360,
            hidpi: true,
            border_order: -1,
            active_only: false,
            standalone: false,
            tarmac_socket: None,
            test_wid: None,
        }
    }
}

/// What the arguments ask for.
#[derive(Debug)]
pub enum Request {
    Run(Config),
    Help,
    Version,
    /// The argument at this place is no option.
    UnknownOption(usize),
    /// The argument at this place is too short for a color, or cannot be cut into
    /// pairs of characters, so there is no going on.
    BadColor(usize),
}

pub enum RequestView {
    Run(ConfigView),
    Help,
    Version,
    UnknownOption(int),
    BadColor(int),
}

impl View for Request {
    type V = RequestView;

    open spec fn view(&self) -> RequestView {
        match self {
            Request::Run(c) => RequestView::Run(c@),
            Request::Help => RequestView::Help,
            Request::Version => RequestView::Version,
            Request::UnknownOption(i) => RequestView::UnknownOption(*i as int),
            Request::BadColor(i) => RequestView::BadColor(*i as int),
        }
    }
}

/// The options that the argument behind them belongs to.
pub open spec fn takes_value(word: Seq<char>) -> bool {
    ||| word == "--width"@ || word == "-w"@
    ||| word == "--color"@ || word == "-c"@
    ||| word == "--inactive"@ || word == "-i"@
    ||| word == "--radius"@ || word == "-r"@
    ||| word == "--tarmac"@
    ||| word == "--test-wid"@
    ||| word == "--order"@
}

/// The order that a word asks for: `above`, `below`, or a number; below if it is none
/// of these.
pub open spec fn order_of(word: Seq<char>) -> i32 {
    if word == "above"@ {
        1
    } else if word == "below"@ {
        -1i32
    } else {
        match number_i32(encode_utf8(word)) {
            Some(v) => v,
            None => -1i32,
        }
    }
}

/// The configuration after an option that stands alone.
pub open spec fn with_switch(c: ConfigView, word: Seq<char>) -> ConfigView {
    if word == "--active-only"@ {
        ConfigView { active_only: true, ..c }
    } else if word == "--standalone"@ {
        ConfigView { standalone: true, ..c }
    } else {
        ConfigView { hidpi: false, ..c }
    }
}

/// The configuration after an option with its value. `length` is what the value reads
/// as, in units, if it reads as a number.
pub open spec fn with_value(
    c: ConfigView,
    word: Seq<char>,
    value: Seq<char>,
    length: Option<i64>,
) -> ConfigView {
    if word == "--width"@ || word == "-w"@ {
        ConfigView {
            border_width: match length {
                Some(v) => v,
                None => c.border_width,
            },
            ..c
        }
    } else if word == "--color"@ || word == "-c"@ {
        ConfigView { active_color: lenient_color(behind_hashes(encode_utf8(value))), ..c }
    } else if word == "--inactive"@ || word == "-i"@ {
        ConfigView { inactive_color: lenient_color(behind_hashes(encode_utf8(value))), ..c }
    } else if word == "--radius"@ || word == "-r"@ {
        ConfigView {
            radius: match length {
                Some(v) => v,
                None => c.radius,
            },
            ..c
        }
    } else if word == "--tarmac"@ {
        ConfigView { tarmac_socket: Some(value), ..c }
    } else if word == "--test-wid"@ {
        ConfigView { test_wid: number_u32(encode_utf8(value)), ..c }
    } else {
        ConfigView { border_order: order_of(value), ..c }
    }
}

/// The configuration after an option whose value is missing.
pub open spec fn without_value(c: ConfigView, word: Seq<char>) -> ConfigView {
    if word == "--tarmac"@ {
        ConfigView { tarmac_socket: None, ..c }
    } else {
        c
    }
}

/// The word is followed by a color that cannot be read.
pub open spec fn color_unreadable(word: Seq<char>, value: Seq<char>) -> bool {
    (word == "--color"@ || word == "-c"@ || word == "--inactive"@ || word == "-i"@) && !has_pairs(
        behind_hashes(encode_utf8(value)),
    )
}

/// What the arguments from place `i` on ask for, given what those before it said.
pub open spec fn request(
    args: Seq<Seq<char>>,
    lengths: Seq<Option<i64>>,
    i: int,
    c: ConfigView,
) -> RequestView
    decreases args.len() - i,
{
    if i >= args.len() {
        RequestView::Run(c)
    } else {
        let word = args[i];
        if word == "--help"@ || word == "-h"@ {
            RequestView::Help
        } else if word == "--version"@ || word == "-v"@ {
            RequestView::Version
        } else if takes_value(word) {
            if i + 1 >= args.len() {
                RequestView::Run(without_value(c, word))
            } else if color_unreadable(word, args[i + 1]) {
                RequestView::BadColor(i + 1)
            } else {
                request(args, lengths, i + 2, with_value(c, word, args[i + 1], lengths[i + 1]))
            }
        } else if word == "--active-only"@ || word == "--standalone"@ || word == "--no-hidpi"@ {
            request(args, lengths, i + 1, with_switch(c, word))
        } else {
            RequestView::UnknownOption(i)
        }
    }
}

fn is_either(word: &str, long: &str, short: &str) -> (r: bool)
    ensures
        r == (word@ == long@ || word@ == short@),
{
    same_text(word, long) || same_text(word, short)
}

fn has_value(word: &str) -> (r: bool)
    ensures
        r == takes_value(word@),
{
    is_either(word, "--width", "-w") || is_either(word, "--color", "-c") || is_either(
        word,
        "--inactive",
        "-i",
    ) || is_either(word, "--radius", "-r") || same_text(word, "--tarmac") || same_text(
        word,
        "--test-wid",
    ) || same_text(word, "--order")
}

fn read_order(word: &str) -> (r: i32)
    ensures
        r == order_of(word@),
{
    if same_text(word, "above") {
        1
    } else if same_text(word, "below") {
        -1
    } else {
        match parse_i32(word) {
            Some(v) => v,
            None => -1,
        }
    }
}

fn is_color_unreadable(word: &str, value: &str) -> (r: bool)
    ensures
        r == color_unreadable(word@, value@),
{
    (is_either(word, "--color", "-c") || is_either(word, "--inactive", "-i")) && !holds_pairs(value)
}

impl Config {
    fn take_switch(&mut self, word: &str)
        ensures
            final(self)@ == with_switch(old(self)@, word@),
    {
        if same_text(word, "--active-only") {
            self.active_only = true;
        } else if same_text(word, "--standalone") {
            self.standalone = true;
        } else {
            self.hidpi = false;
        }
    }

    fn take_value(&mut self, word: &str, value: &String, length: Option<i64>)
        requires
            !color_unreadable(word@, value@),
        ensures
            final(self)@ == with_value(old(self)@, word@, value@, length),
    {
        if is_either(word, "--width", "-w") {
            if let Some(v) = length {
                self.border_width = v;
            }
        } else if is_either(word, "--color", "-c") {
            self.active_color = Color::from_hex(value.as_str());
        } else if is_either(word, "--inactive", "-i") {
            self.inactive_color = Color::from_hex(value.as_str());
        } else if is_either(word, "--radius", "-r") {
            if let Some(v) = length {
                self.radius = v;
            }
        } else if same_text(word, "--tarmac") {
            self.tarmac_socket = Some(value.clone());
        } else if same_text(word, "--test-wid") {
            self.test_wid = parse_u32(value.as_str());
        } else {
            self.border_order = read_order(value.as_str());
        }
    }

    /// Reads the arguments, with the program's name first. `lengths` holds what each
    /// argument reads as, in units, if it reads as a number.
    pub fn from_args(args: &[String], lengths: &[Option<i64>]) -> (r: Request)
        requires
            lengths@.len() == args@.len(),
        ensures
            r@ == request(words(args@), lengths@, 1, default_config()),
    {
        let mut config = Config::default();
        let mut i: usize = 1;
        while i < args.len()
            invariant
                1 <= i,
                lengths@.len() == args@.len(),
                request(words(args@), lengths@, 1, default_config()) == request(
                    words(args@),
                    lengths@,
                    i as int,
                    config@,
                ),
            decreases args@.len() - i,
        {
            let word = args[i].as_str();
            assert(words(args@)[i as int] == word@);
            if is_either(word, "--help", "-h") {
                return Request::Help;
            }
            if is_either(word, "--version", "-v") {
                return Request::Version;
            }
            if has_value(word) {
                if i + 1 >= args.len() {
                    if same_text(word, "--tarmac") {
                        config.tarmac_socket = None;
                    }
                    return Request::Run(config);
                }
                if is_color_unreadable(word, args[i + 1].as_str()) {
                    return Request::BadColor(i + 1);
                }
                config.take_value(word, &args[i + 1], lengths[i + 1]);
                i = i + 2;
            } else if same_text(word, "--active-only") || same_text(word, "--standalone")
                || same_text(word, "--no-hidpi") {
                config.take_switch(word);
                i = i + 1;
            } else {
                return Request::UnknownOption(i);
            }
        }
        Request::Run(config)
    }
}

/// What the tracker does without any arguments.
pub proof fn law_default_configuration()
    ensures
        default_config().border_width == 4 * crate::geometry::POINT,
        default_config().radius == 10 * crate::geometry::POINT,
        default_config().active_color == (Color { r: 0x52, g: 0x94, b: 0xe2, a: 255 }),
        default_config().inactive_color == (Color { r: 0x2d, g: 0x2d, b: 0x2d, a: 0x80 }),
        default_config().hidpi,
        default_config().border_order < 0,
        !default_config().active_only,
        !default_config().standalone,
        default_config().tarmac_socket is None,
        default_config().test_wid is None,
{
}

/// Some characters of the options, by which they differ.
proof fn lemma_spellings()
    ensures
        "--width"@.len() == 7 && "--width"@[2] == 'w' && "-w"@.len() == 2 && "-w"@[1] == 'w',
        "--color"@.len() == 7 && "--color"@[2] == 'c' && "-c"@.len() == 2 && "-c"@[1] == 'c',
        "--inactive"@.len() == 10 && "--inactive"@[2] == 'i' && "-i"@.len() == 2 && "-i"@[1]
            == 'i',
        "--radius"@.len() == 8 && "--radius"@[2] == 'r' && "-r"@.len() == 2 && "-r"@[1] == 'r',
        "--help"@.len() == 6 && "-h"@.len() == 2 && "-h"@[1] == 'h',
        "--version"@.len() == 9 && "-v"@.len() == 2 && "-v"@[1] == 'v',
        "--tarmac"@.len() == 8 && "--tarmac"@[2] == 't',
        "--test-wid"@.len() == 10 && "--test-wid"@[2] == 't',
        "--order"@.len() == 7 && "--order"@[2] == 'o',
        "--active-only"@.len() == 13,
        "--standalone"@.len() == 12,
        "--no-hidpi"@.len() == 10 && "--no-hidpi"@[2] == 'n',
        "above"@.len() == 5 && "above"@[0] == 'a' && "below"@.len() == 5 && "below"@[0] == 'b',
{
    reveal_strlit("--width");
    reveal_strlit("-w");
    reveal_strlit("--color");
    reveal_strlit("-c");
    reveal_strlit("--inactive");
    reveal_strlit("-i");
    reveal_strlit("--radius");
    reveal_strlit("-r");
    reveal_strlit("--help");
    reveal_strlit("-h");
    reveal_strlit("--version");
    reveal_strlit("-v");
    reveal_strlit("--tarmac");
    reveal_strlit("--test-wid");
    reveal_strlit("--order");
    reveal_strlit("--active-only");
    reveal_strlit("--standalone");
    reveal_strlit("--no-hidpi");
    reveal_strlit("above");
    reveal_strlit("below");
}

/// An option with a length takes it over, if it is a number, and changes nothing else.
pub proof fn law_length_options(
    args: Seq<Seq<char>>,
    lengths: Seq<Option<i64>>,
    i: int,
    c: ConfigView,
)
    requires
        0 <= i,
        i + 1 < args.len(),
    ensures
        (args[i] == "--width"@ || args[i] == "-w"@) && lengths[i + 1] is Some ==> request(
            args,
            lengths,
            i,
            c,
        ) == request(
            args,
            lengths,
            i + 2,
            (ConfigView { border_width: lengths[i + 1]->0, ..c }),
        ),
        (args[i] == "--radius"@ || args[i] == "-r"@) && lengths[i + 1] is Some ==> request(
            args,
            lengths,
            i,
            c,
        ) == request(args, lengths, i + 2, (ConfigView { radius: lengths[i + 1]->0, ..c })),
        (args[i] == "--width"@ || args[i] == "-w"@ || args[i] == "--radius"@ || args[i] == "-r"@)
            && lengths[i + 1] is None ==> request(args, lengths, i, c) == request(
            args,
            lengths,
            i + 2,
            c,
        ),
{
    lemma_spellings();
}

/// An option with a color takes over what the lenient reader makes of it, and changes
/// nothing else; there is no going on where that reader cannot read.
pub proof fn law_color_options(
    args: Seq<Seq<char>>,
    lengths: Seq<Option<i64>>,
    i: int,
    c: ConfigView,
)
    requires
        0 <= i,
        i + 1 < args.len(),
    ensures
        ({
            let text = behind_hashes(encode_utf8(args[i + 1]));
            let read = lenient_color(text);
            let active = args[i] == "--color"@ || args[i] == "-c"@;
            let inactive = args[i] == "--inactive"@ || args[i] == "-i"@;
            let r = request(args, lengths, i, c);
            &&& (active || inactive) && !has_pairs(text) ==> r == RequestView::BadColor(i + 1)
            &&& active && has_pairs(text) ==> r == request(
                args,
                lengths,
                i + 2,
                (ConfigView { active_color: read, ..c }),
            )
            &&& inactive && has_pairs(text) ==> r == request(
                args,
                lengths,
                i + 2,
                (ConfigView { inactive_color: read, ..c }),
            )
        }),
{
    lemma_spellings();
}

/// The other options with a value: the socket, the one window to test with, and the
/// order, which is 1 for `above`, -1 for `below` and for what is no number, and otherwise
/// the number.
pub proof fn law_other_value_options(
    args: Seq<Seq<char>>,
    lengths: Seq<Option<i64>>,
    i: int,
    c: ConfigView,
)
    requires
        0 <= i,
        i + 1 < args.len(),
    ensures
        ({
            let value = args[i + 1];
            let number = number_i32(encode_utf8(value));
            let order = if value == "above"@ {
                1
            } else if value == "below"@ || number is None {
                -1i32
            } else {
                number->0
            };
            let r = request(args, lengths, i, c);
            &&& args[i] == "--tarmac"@ ==> r == request(
                args,
                lengths,
                i + 2,
                (ConfigView { tarmac_socket: Some(value), ..c }),
            )
            &&& args[i] == "--test-wid"@ ==> r == request(
                args,
                lengths,
                i + 2,
                (ConfigView { test_wid: number_u32(encode_utf8(value)), ..c }),
            )
            &&& args[i] == "--order"@ ==> r == request(
                args,
                lengths,
                i + 2,
                (ConfigView { border_order: order, ..c }),
            )
        }),
{
    lemma_spellings();
}

/// The options without a value switch one thing each. Help and the version are shown as
/// soon as they are asked for, and any other word is no option.
pub proof fn law_switches(args: Seq<Seq<char>>, lengths: Seq<Option<i64>>, i: int, c: ConfigView)
    requires
        0 <= i < args.len(),
    ensures
        ({
            let r = request(args, lengths, i, c);
            let word = args[i];
            &&& word == "--active-only"@ ==> r == request(
                args,
                lengths,
                i + 1,
                (ConfigView { active_only: true, ..c }),
            )
            &&& word == "--standalone"@ ==> r == request(
                args,
                lengths,
                i + 1,
                (ConfigView { standalone: true, ..c }),
            )
            &&& word == "--no-hidpi"@ ==> r == request(
                args,
                lengths,
                i + 1,
                (ConfigView { hidpi: false, ..c }),
            )
            &&& word == "--help"@ || word == "-h"@ ==> r is Help
            &&& word == "--version"@ || word == "-v"@ ==> r is Version
        }),
{
    lemma_spellings();
}

/// A word that is none of the options is reported with its place.
pub proof fn law_unknown_options(
    args: Seq<Seq<char>>,
    lengths: Seq<Option<i64>>,
    i: int,
    c: ConfigView,
)
    requires
        0 <= i < args.len(),
        !seq!["--width"@, "-w"@, "--color"@, "-c"@, "--inactive"@, "-i"@].contains(args[i]),
        !seq!["--radius"@, "-r"@, "--tarmac"@, "--test-wid"@, "--order"@].contains(args[i]),
        !seq!["--active-only"@, "--standalone"@, "--no-hidpi"@].contains(args[i]),
        !seq!["--help"@, "-h"@, "--version"@, "-v"@].contains(args[i]),
    ensures
        request(args, lengths, i, c) == RequestView::UnknownOption(i),
{
}

/// With no arguments left, what was read so far holds. An option whose value is missing
/// at the end changes nothing, but that the socket is forgotten.
pub proof fn law_end_of_the_arguments(
    args: Seq<Seq<char>>,
    lengths: Seq<Option<i64>>,
    c: ConfigView,
)
    ensures
        request(args, lengths, args.len() as int, c) == RequestView::Run(c),
        args.len() > 0 && takes_value(args.last()) && args.last() != "--tarmac"@ ==> request(
            args,
            lengths,
            args.len() - 1,
            c,
        ) == RequestView::Run(c),
        args.len() > 0 && args.last() == "--tarmac"@ ==> request(
            args,
            lengths,
            args.len() - 1,
            c,
        ) == RequestView::Run((ConfigView { tarmac_socket: None, ..c })),
{
    lemma_spellings();
}

}
