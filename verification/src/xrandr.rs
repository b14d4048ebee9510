//! The argument list that reconciles the live outputs with a target layout.
//!
//! The list is written for the display-configuration tool `xrandr`: for each
//! output of the target snapshot, in the snapshot's order, one group of
//! arguments that either switches the output off or sets it as the snapshot
//! describes it. Building the list performs no I/O; running the tool is left
//! to the caller.

use vstd::prelude::*;
use crate::state::{Output, OutputView, State};
use crate::text::{decimal, join, push_decimal, push_signed_decimal, signed_decimal};

verus! {

/// A resolution as the tool reads it: width, the letter `x`, height.
pub open spec fn mode_word(mode: (u16, u16)) -> Seq<char> {
    decimal(mode.0 as nat) + seq!['x'] + decimal(mode.1 as nat)
}

/// A position as the tool reads it: the horizontal offset, the letter `x`,
/// the vertical offset.
pub open spec fn position_word(position: (i16, i16)) -> Seq<char> {
    signed_decimal(position.0 as int) + seq!['x'] + signed_decimal(position.1 as int)
}

/// The arguments that mark the output as primary, if it is.
pub open spec fn primary_directive(o: OutputView) -> Seq<Seq<char>> {
    if o.is_primary {
        seq!["--primary"@]
    } else {
        Seq::empty()
    }
}

/// The arguments that set the output's mode, if the snapshot gives one.
pub open spec fn mode_directive(o: OutputView) -> Seq<Seq<char>> {
    match o.mode {
        Some(mode) => seq!["--mode"@, mode_word(mode)],
        None => Seq::empty(),
    }
}

/// The arguments that set the output's position, if the snapshot gives one.
pub open spec fn position_directive(o: OutputView) -> Seq<Seq<char>> {
    match o.position {
        Some(position) => seq!["--pos"@, position_word(position)],
        None => Seq::empty(),
    }
}

/// The group of arguments for one output: an output without a display is
/// switched off; any other is selected, marked primary where it is primary,
/// given its mode and position where the snapshot holds them, and rotated.
pub open spec fn output_directives(o: OutputView) -> Seq<Seq<char>> {
    if !o.is_connected {
        seq!["--output"@, o.name, "--off"@]
    } else {
        seq!["--output"@, o.name] + primary_directive(o) + mode_directive(o) + position_directive(
            o,
        ) + seq!["--rotate"@, o.rotate.word()]
    }
}

/// The argument list for the snapshot `s`: the groups of its outputs, one
/// after the other in the snapshot's order.
pub open spec fn plan(s: Seq<OutputView>) -> Seq<Seq<char>> {
    s.map_values(|o: OutputView| output_directives(o)).flatten()
}

/// The command line that runs the tool with `args`.
pub open spec fn command_line(args: Seq<Seq<char>>) -> Seq<char> {
    "xrandr "@ + join(args, seq![' '])
}

/// The plan of a snapshot that grows by one output grows by that output's
/// group.
pub proof fn lemma_plan_push(s: Seq<OutputView>, o: OutputView)
    ensures
        plan(s.push(o)) == plan(s) + output_directives(o),
{
    let f = |o: OutputView| output_directives(o);
    assert(s.push(o).map_values(f) =~= s.map_values(f).push(output_directives(o)));
    s.map_values(f).lemma_flatten_push(output_directives(o));
}

/// The arguments of one run of the display-configuration tool.
#[derive(Debug, PartialEq, Eq)]
pub struct XrandrCmd {
    args: Vec<String>,
}

impl View for XrandrCmd {
    type V = Seq<Seq<char>>;

    closed spec fn view(&self) -> Seq<Seq<char>> {
        self.args@.map_values(|arg: String| arg@)
    }
}

impl Clone for XrandrCmd {
    fn clone(&self) -> (r: Self)
        ensures
            r@ == self@,
    {
        let mut args: Vec<String> = Vec::new();
        let mut i: usize = 0;
        while i < self.args.len()
            invariant
                i <= self.args.len(),
                args@.len() == i,
                forall|j: int| 0 <= j < i ==> args@[j]@ == self.args@[j]@,
            decreases self.args.len() - i,
        {
            args.push(self.args[i].clone());
            i = i + 1;
        }
        let r = XrandrCmd { args };
        assert(r@ =~= self@);
        r
    }
}

fn push_word(args: &mut Vec<String>, word: &str)
    ensures
        final(args)@.map_values(|arg: String| arg@) == old(args)@.map_values(|arg: String| arg@).push(
            word@,
        ),
{
    args.push(word.to_owned());
    assert(args@.map_values(|arg: String| arg@) =~= old(args)@.map_values(|arg: String| arg@).push(
        word@,
    ));
}

fn push_output(args: &mut Vec<String>, output: &Output)
    ensures
        final(args)@.map_values(|arg: String| arg@) == old(args)@.map_values(|arg: String| arg@)
            + output_directives(output@),
{
    let ghost before = args@.map_values(|arg: String| arg@);
    push_word(args, "--output");
    push_word(args, output.name.as_str());
    if !output.is_connected {
        push_word(args, "--off");
        assert(args@.map_values(|arg: String| arg@) =~= before + output_directives(output@));
        return ;
    }
    if output.is_primary {
        push_word(args, "--primary");
    }
    if let Some((width, height)) = output.mode {
        let mut word = String::new();
        push_decimal(&mut word, width as u64);
        proof {
            reveal_strlit("x");
        }
        word.append("x");
        push_decimal(&mut word, height as u64);
        assert(word@ =~= mode_word((width, height)));
        push_word(args, "--mode");
        push_word(args, word.as_str());
    }
    if let Some((x, y)) = output.position {
        let mut word = String::new();
        push_signed_decimal(&mut word, x);
        proof {
            reveal_strlit("x");
        }
        word.append("x");
        push_signed_decimal(&mut word, y);
        assert(word@ =~= position_word((x, y)));
        push_word(args, "--pos");
        push_word(args, word.as_str());
    }
    push_word(args, "--rotate");
    push_word(args, output.rotate.as_str());
    assert(args@.map_values(|arg: String| arg@) =~= before + output_directives(output@));
}

impl XrandrCmd {
    /// A command with the arguments `args`.
    #[must_use]
    pub fn new(args: Vec<String>) -> (r: Self)
        ensures
            r@ == args@.map_values(|arg: String| arg@),
    {
        Self { args }
    }

    /// The arguments, in the order in which the tool is to get them.
    pub fn args(&self) -> (r: &Vec<String>)
        ensures
            r@.map_values(|arg: String| arg@) == self@,
    {
        &self.args
    }

    /// The command as one line: the tool's name and the arguments, each
    /// after a space.
    pub fn to_string(&self) -> (line: String)
        ensures
            line@ == command_line(self@),
    {
        let mut line = "xrandr ".to_owned();
        let mut i: usize = 0;
        let ghost words = self@;
        assert(words.take(0) =~= Seq::<Seq<char>>::empty());
        assert(line@ =~= command_line(words.take(0)));
        while i < self.args.len()
            invariant
                i <= self.args.len(),
                words == self@,
                words.len() == self.args.len(),
                line@ == command_line(words.take(i as int)),
            decreases self.args.len() - i,
        {
            proof {
                reveal_strlit(" ");
                assert(words.take(i as int + 1).drop_last() =~= words.take(i as int));
                assert(words.take(i as int + 1).last() == self.args@[i as int]@);
            }
            if i > 0 {
                line.append(" ");
            }
            line.append(self.args[i].as_str());
            assert(line@ =~= command_line(words.take(i as int + 1)));
            i = i + 1;
        }
        assert(words.take(i as int) =~= words);
        line
    }
}

impl From<&State> for XrandrCmd {
    /// The command that brings the outputs to what `value` describes.
    fn from(value: &State) -> (r: Self)
        ensures
            r@ == plan(value@),
    {
        let mut args: Vec<String> = Vec::new();
        let mut i: usize = 0;
        assert(value@.take(0) =~= Seq::<OutputView>::empty());
        assert(plan(value@.take(0)) =~= Seq::<Seq<char>>::empty());
        assert(args@.map_values(|arg: String| arg@) =~= Seq::<Seq<char>>::empty());
        while i < value.outputs.len()
            invariant
                i <= value.outputs.len(),
                args@.map_values(|arg: String| arg@) == plan(value@.take(i as int)),
            decreases value.outputs.len() - i,
        {
            proof {
                assert(value@.take(i as int + 1) =~= value@.take(i as int).push(value@[i as int]));
                lemma_plan_push(value@.take(i as int), value@[i as int]);
            }
            push_output(&mut args, &value.outputs[i]);
            i = i + 1;
        }
        assert(value@.take(i as int) =~= value@);
        Self { args }
    }
}

/// What `from` returns is stated by its `ensures`, over the view of the
/// command: a command holds a vector, which no spec expression builds.
impl vstd::std_specs::convert::FromSpecImpl<&State> for XrandrCmd {
    open spec fn obeys_from_spec() -> bool {
        false
    }

    open spec fn from_spec(v: &State) -> Self {
        arbitrary()
    }
}

} // verus!
