//! The launch options on the command line.
use crate::text::{chars_eq, chars_of, starts_with, starts_with_at, string_from_range};
use vstd::prelude::*;

verus! {

/// Opens the channel picker once the window is up.
pub const SHOW_PICKER_FLAG: &'static str = "--show-picker";

/// Plays the first channel once the window is up.
pub const START_FIRST_FLAG: &'static str = "--start-first";

/// Takes the receiver URL from the next argument.
pub const BOX_URL_FLAG: &'static str = "--box-url";

/// Carries the receiver URL after the `=`.
pub const BOX_URL_PREFIX: &'static str = "--box-url=";

/// The launch options.
#[derive(Debug, PartialEq, Eq)]
pub struct CliOptions {
    pub show_picker: bool,
    pub start_first: bool,
    pub box_url: Option<String>,
}

/// What the launch options hold.
pub struct CliView {
    pub show_picker: bool,
    pub start_first: bool,
    pub box_url: Option<Seq<char>>,
}

impl View for CliOptions {
    type V = CliView;

    open spec fn view(&self) -> CliView {
        CliView {
            show_picker: self.show_picker,
            start_first: self.start_first,
            box_url: match self.box_url {
                Some(u) => Some(u@),
                None => None,
            },
        }
    }
}

impl Default for CliOptions {
    /// No option set.
    fn default() -> (r: Self)
        ensures
            !r.show_picker,
            !r.start_first,
            r.box_url is None,
    {
        CliOptions { show_picker: false, start_first: false, box_url: None }
    }
}

/// The options `o` after reading `args` in order: each flag sets its option,
/// a later receiver URL replaces an earlier one, `--box-url` as the last
/// argument is ignored, and unknown arguments are skipped.
pub open spec fn read_args(o: CliView, args: Seq<Seq<char>>) -> CliView
    decreases args.len(),
{
    if args.len() == 0 {
        o
    } else {
        let a = args[0];
        if a == SHOW_PICKER_FLAG@ {
            read_args(CliView { show_picker: true, ..o }, args.drop_first())
        } else if a == START_FIRST_FLAG@ {
            read_args(CliView { start_first: true, ..o }, args.drop_first())
        } else if a == BOX_URL_FLAG@ {
            if args.len() >= 2 {
                read_args(CliView { box_url: Some(args[1]), ..o }, args.skip(2))
            } else {
                o
            }
        } else if starts_with(a, BOX_URL_PREFIX@) {
            read_args(
                CliView { box_url: Some(a.skip(BOX_URL_PREFIX@.len() as int)), ..o },
                args.drop_first(),
            )
        } else {
            read_args(o, args.drop_first())
        }
    }
}

/// The texts of the arguments.
pub open spec fn arg_texts(args: Seq<String>) -> Seq<Seq<char>> {
    args.map_values(|a: String| a@)
}

/// The launch options that `args` (without the program name) give.
pub open spec fn options_of(args: Seq<String>) -> CliView {
    read_args(CliView { show_picker: false, start_first: false, box_url: None }, arg_texts(args))
}

/// Reads the launch options from the arguments (without the program name).
pub fn parse_args(args: Vec<String>) -> (r: CliOptions)
    ensures
        r@ == options_of(args@),
{
    let show = chars_of(SHOW_PICKER_FLAG);
    let start = chars_of(START_FIRST_FLAG);
    let flag = chars_of(BOX_URL_FLAG);
    let prefix = chars_of(BOX_URL_PREFIX);
    let mut options = CliOptions::default();
    let ghost all = arg_texts(args@);
    let mut i: usize = 0;
    assert(all.skip(0) =~= all);
    assert(options@ == CliView { show_picker: false, start_first: false, box_url: None });
    while i < args.len()
        invariant
            i <= args.len(),
            all == arg_texts(args@),
            show@ == SHOW_PICKER_FLAG@,
            start@ == START_FIRST_FLAG@,
            flag@ == BOX_URL_FLAG@,
            prefix@ == BOX_URL_PREFIX@,
            read_args(options@, all.skip(i as int)) == options_of(args@),
        decreases args.len() - i,
    {
        let ghost rest = all.skip(i as int);
        assert(rest[0] == args@[i as int]@);
        assert(rest.drop_first() =~= all.skip(i + 1));
        let a = chars_of(args[i].as_str());
        if chars_eq(a.as_slice(), show.as_slice()) {
            options.show_picker = true;
            i = i + 1;
        } else if chars_eq(a.as_slice(), start.as_slice()) {
            options.start_first = true;
            i = i + 1;
        } else if chars_eq(a.as_slice(), flag.as_slice()) {
            if i + 1 < args.len() {
                assert(rest[1] == args@[i + 1]@);
                assert(rest.skip(2) =~= all.skip(i + 2));
                options.box_url = Some(args[i + 1].clone());
                i = i + 2;
            } else {
                return options;
            }
        } else if starts_with_at(a.as_slice(), 0, prefix.as_slice()) {
            assert(a@.subrange(0, a@.len() as int) =~= a@);
            let value = string_from_range(a.as_slice(), prefix.len(), a.len());
            assert(value@ =~= a@.skip(prefix@.len() as int));
            options.box_url = Some(value);
            i = i + 1;
        } else {
            assert(a@.subrange(0, a@.len() as int) =~= a@);
            i = i + 1;
        }
    }
    assert(all.skip(i as int) =~= Seq::<Seq<char>>::empty());
    options
}

} // verus!
