//! What is decided while audit logs are watched for new entries.
use vstd::prelude::*;

verus! {

/// The level of logging for the number of times that verbose output was asked for.
pub open spec fn level_for(debug: u8) -> Seq<char> {
    match debug {
        0 => "error"@,
        1 => "info"@,
        2 => "debug"@,
        _ => "trace"@,
    }
}

/// The level of logging for the number of times that verbose output was asked for.
pub fn log_level(debug: u8) -> (level: &'static str)
    ensures
        level@ == level_for(debug),
{
    match debug {
        0 => "error",
        1 => "info",
        2 => "debug",
        _ => "trace",
    }
}

/// What to do when the user interrupts the program.
#[derive(Clone, Copy, Debug, PartialEq, Eq, Structural)]
pub enum InterruptAction {
    /// Finish the remaining work, start nothing new.
    Finish,
    /// Quit at once.
    Quit,
}

/// What to do on an interrupt.
pub open spec fn action_for(first_interrupt: bool) -> InterruptAction {
    if first_interrupt {
        InterruptAction::Finish
    } else {
        InterruptAction::Quit
    }
}

/// The program finishes its work on the first interrupt, and quits on any other.
pub proof fn law_only_the_first_interrupt_is_patient(first_interrupt: bool)
    ensures
        action_for(first_interrupt) == InterruptAction::Finish <==> first_interrupt,
        action_for(first_interrupt) == InterruptAction::Quit <==> !first_interrupt,
{
}

/// What to do on an interrupt: the first one is a request to finish, any other quits at once.
pub fn interrupt_action(first_interrupt: bool) -> (action: InterruptAction)
    ensures
        action == if first_interrupt {
            InterruptAction::Finish
        } else {
            InterruptAction::Quit
        },
        action == action_for(first_interrupt),
{
    if first_interrupt {
        InterruptAction::Finish
    } else {
        InterruptAction::Quit
    }
}

/// `before`, `name` and `after`, one behind the other.
fn quoted(before: &str, name: &str, after: &str) -> (text: String)
    ensures
        text@ == before@ + name@ + after@,
{
    let mut text = String::new();
    text.append(before);
    text.append(name);
    text.append(after);
    assert(text@ =~= before@ + name@ + after@);
    text
}

/// What is wrong with the file or folder to watch, if anything.
pub open spec fn input_error(found: Result<bool, ()>, input: Seq<char>) -> Option<Seq<char>> {
    match found {
        Ok(true) => None,
        Ok(false) => Some("Input file/folder "@ + input + " does not exist!"@),
        Err(_) => Some("Input file/folder "@ + input + " could not be accessed!"@),
    }
}

/// An input is refused if and only if it is not there or this could not be told. The error names
/// the input as a whole, and tells the two cases apart.
pub proof fn law_what_is_wrong_with_an_input(found: Result<bool, ()>, input: Seq<char>)
    ensures
        input_error(found, input) is None <==> found == Ok::<bool, ()>(true),
        input_error(found, input) matches Some(error) ==> {
            &&& error.take(18) == "Input file/folder "@
            &&& error.subrange(18, (18 + input.len()) as int) == input
            &&& error.skip((18 + input.len()) as int) == if found is Err {
                " could not be accessed!"@
            } else {
                " does not exist!"@
            }
        },
{
    reveal_strlit("Input file/folder ");
    if let Some(error) = input_error(found, input) {
        assert(error.take(18) =~= "Input file/folder "@);
        assert(error.subrange(18, (18 + input.len()) as int) =~= input);
        assert(error.skip((18 + input.len()) as int) =~= if found is Err {
            " could not be accessed!"@
        } else {
            " does not exist!"@
        });
    }
}

/// Checks the file or folder to watch. `found` says whether it exists, or that this could not be
/// told.
pub fn check_input(found: Result<bool, ()>, input: &str) -> (r: Result<(), String>)
    ensures
        match found {
            Ok(true) => r is Ok,
            Ok(false) => r matches Err(error) && error@ == "Input file/folder "@ + input@
                + " does not exist!"@,
            Err(_) => r matches Err(error) && error@ == "Input file/folder "@ + input@
                + " could not be accessed!"@,
        },
        input_error(found, input@) == match r {
            Ok(_) => None,
            Err(error) => Some(error@),
        },
{
    match found {
        Ok(true) => Ok(()),
        Ok(false) => Err(quoted("Input file/folder ", input, " does not exist!")),
        Err(_) => Err(quoted("Input file/folder ", input, " could not be accessed!")),
    }
}

/// The error for an output file.
pub open spec fn output_error_text(output: Seq<char>) -> Seq<char> {
    "Unable to create or open file "@ + output
}

/// The error for an output file names it as a whole, at its end.
pub proof fn law_what_is_wrong_with_an_output(output: Seq<char>)
    ensures
        output_error_text(output).take(30) == "Unable to create or open file "@,
        output_error_text(output).skip(30) == output,
{
    reveal_strlit("Unable to create or open file ");
    assert(output_error_text(output).take(30) =~= "Unable to create or open file "@);
    assert(output_error_text(output).skip(30) =~= output);
}

/// The error for an output file that could not be opened.
pub fn output_error(output: &str) -> (error: String)
    ensures
        error@ == "Unable to create or open file "@ + output@,
        error@ == output_error_text(output@),
{
    let mut error = "Unable to create or open file ".to_string();
    error.append(output);
    error
}

/// How the input is watched.
#[derive(Clone, Copy, Debug, PartialEq, Eq, Structural)]
pub struct WatchPlan {
    /// The number of threads that read audit logs.
    pub threads: u8,
    /// Whether what lies deeper in the folder is watched too.
    pub recursive: bool,
}

/// How the input is watched.
pub open spec fn plan_for(is_dir: bool, threads: Option<u8>) -> WatchPlan {
    WatchPlan {
        threads: if !is_dir {
            1
        } else {
            match threads {
                Some(n) => n,
                None => 4,
            }
        },
        recursive: is_dir,
    }
}

/// A file is read by one thread, whatever was asked for. A folder is read by as many threads as
/// were asked for, whatever the number, and by four if none was given; all that is in it is
/// watched.
pub proof fn law_how_the_input_is_watched(threads: Option<u8>, n: u8)
    ensures
        plan_for(false, threads).threads == 1 && !plan_for(false, threads).recursive,
        plan_for(true, Some(n)).threads == n && plan_for(true, Some(n)).recursive,
        plan_for(true, None).threads == 4 && plan_for(true, None).recursive,
{
}

/// Decides how the input is watched: a file by a single thread, a folder with all that is in it by
/// as many threads as were asked for, or else by four.
pub fn watch_plan(is_dir: bool, threads: Option<u8>) -> (plan: WatchPlan)
    ensures
        plan.recursive == is_dir,
        plan.threads == if !is_dir {
            1
        } else {
            match threads {
                Some(n) => n,
                None => 4,
            }
        },
        plan == plan_for(is_dir, threads),
{
    if is_dir {
        let threads: u8 = match threads {
            Some(n) => n,
            None => 4,
        };
        WatchPlan { threads, recursive: true }
    } else {
        WatchPlan { threads: 1, recursive: false }
    }
}

/// What was created.
#[derive(Clone, Copy, Debug, PartialEq, Eq, Structural)]
pub enum CreateKind {
    Any,
    File,
    Folder,
    Other,
}

/// What was modified.
#[derive(Clone, Copy, Debug, PartialEq, Eq, Structural)]
pub enum ModifyKind {
    Any,
    Data,
    Metadata,
    Name,
    Other,
}

/// What happened in the file system.
#[derive(Clone, Copy, Debug, PartialEq, Eq, Structural)]
pub enum EventKind {
    Any,
    Access,
    Create(CreateKind),
    Modify(ModifyKind),
    Remove,
    Other,
}

/// Something that happened in the file system, and the paths that it concerns.
pub struct WatchEvent<P> {
    pub kind: EventKind,
    pub paths: Vec<P>,
}

/// Whether audit logs are read because of an event: anything new, or anything changed.
pub open spec fn is_relevant(kind: EventKind) -> bool {
    kind is Create || kind is Modify
}

/// The paths of the relevant events, in order.
pub open spec fn queued<P>(events: Seq<WatchEvent<P>>) -> Seq<P>
    decreases events.len(),
{
    if events.len() == 0 {
        Seq::empty()
    } else if is_relevant(events.last().kind) {
        queued(events.drop_last()) + events.last().paths@
    } else {
        queued(events.drop_last())
    }
}

/// Everything that is created and everything that is modified counts, whatever it is; that
/// something is read or removed does not.
pub proof fn law_what_is_new_or_changed_is_relevant(created: CreateKind, modified: ModifyKind)
    ensures
        is_relevant(EventKind::Create(created)),
        is_relevant(EventKind::Modify(modified)),
        !is_relevant(EventKind::Any),
        !is_relevant(EventKind::Access),
        !is_relevant(EventKind::Remove),
        !is_relevant(EventKind::Other),
{
}

/// All the paths of a relevant event are queued, and none of another event.
pub proof fn law_all_paths_of_an_event_are_queued<P>(event: WatchEvent<P>)
    ensures
        queued(seq![event]) == match event.kind {
            EventKind::Create(_) => event.paths@,
            EventKind::Modify(_) => event.paths@,
            _ => Seq::empty(),
        },
        queued(Seq::<WatchEvent<P>>::empty()).len() == 0,
{
    reveal_with_fuel(queued, 2);
    assert(seq![event].drop_last() =~= Seq::empty());
    assert(Seq::empty() + event.paths@ =~= event.paths@);
}

/// The more often verbose output is asked for, the more is logged: errors, then information, then
/// what helps to find mistakes, then everything.
pub proof fn law_levels_of_logging(debug: u8)
    ensures
        level_for(debug) == "error"@ <==> debug == 0,
        level_for(debug) == "info"@ <==> debug == 1,
        level_for(debug) == "debug"@ <==> debug == 2,
        level_for(debug) == "trace"@ <==> debug >= 3,
{
    reveal_strlit("error");
    reveal_strlit("info");
    reveal_strlit("debug");
    reveal_strlit("trace");
    assert("error"@[0] == 'e' && "info"@[0] == 'i' && "debug"@[0] == 'd' && "trace"@[0] == 't');
}

/// The paths to read because of the events, in order.
pub fn queued_paths<'a, P>(events: &'a Vec<WatchEvent<P>>) -> (paths: Vec<&'a P>)
    ensures
        paths@.unref() == queued(events@),
{
    let mut paths: Vec<&'a P> = Vec::new();
    assert(paths@.unref() =~= Seq::empty());
    for i in 0..events.len()
        invariant
            paths@.unref() == queued(events@.take(i as int)),
    {
        assert(events@.take(i + 1).drop_last() =~= events@.take(i as int));
        let event = &events[i];
        let relevant: bool = match event.kind {
            EventKind::Create(_) => true,
            EventKind::Modify(_) => true,
            _ => false,
        };
        if relevant {
            let ghost before = queued(events@.take(i as int));
            assert(before + event.paths@.take(0) =~= before);
            for j in 0..event.paths.len()
                invariant
                    paths@.unref() == before + event.paths@.take(j as int),
            {
                let ghost so_far = paths@.unref();
                paths.push(&event.paths[j]);
                assert(paths@.unref() =~= so_far.push(event.paths@[j as int]));
                assert(paths@.unref() =~= before + event.paths@.take(j + 1));
            }
            assert(event.paths@.take(event.paths@.len() as int) =~= event.paths@);
        }
    }
    assert(events@.take(events@.len() as int) =~= events@);
    paths
}

} // verus!
