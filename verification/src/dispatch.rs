//! The virtual-command dispatcher: given an ordered catalog of concrete
//! implementations for a fact, probe each in order and run the first whose
//! detection succeeds; after selection there is no fallback.

use vstd::prelude::*;

use crate::command::{CommandExecutor, CommandString, ExecutionFailure, ExecutionFailureSpec};
use crate::interface::{
    parse_ifc_output, parse_ifc_output_text, parse_ip_output, parse_ip_output_text, parse_outcome,
    Interface, InterfaceSpec, ParseFailure, ParseFailureSpec,
};
use crate::text::{contains_lit, contains_seq};

verus! {

/// The kinds of remote fact this library can retrieve.
#[derive(Debug, Clone, Copy, PartialEq, Eq, Structural)]
pub enum FactKind {
    InterfaceInventory,
}

/// Why a dispatch failed.
#[derive(Debug, Clone, PartialEq)]
pub enum DispatchFailure {
    /// Every catalog entry failed detection.
    NoApplicableImplementation { fact_kind: FactKind },
    /// The selected implementation's execution command failed.
    Execution(ExecutionFailure),
    /// The selected implementation's parser rejected the output.
    Parse(ParseFailure),
}

/// The mathematical shape of a dispatch failure.
pub enum DispatchFailureSpec {
    NoApplicableImplementation { fact_kind: FactKind },
    Execution(ExecutionFailureSpec),
    Parse(ParseFailureSpec),
}

impl View for DispatchFailure {
    type V = DispatchFailureSpec;

    open spec fn view(&self) -> DispatchFailureSpec {
        match self {
            DispatchFailure::NoApplicableImplementation { fact_kind } => DispatchFailureSpec::NoApplicableImplementation {
                fact_kind: *fact_kind,
            },
            DispatchFailure::Execution(e) => DispatchFailureSpec::Execution(e@),
            DispatchFailure::Parse(e) => DispatchFailureSpec::Parse(e@),
        }
    }
}

/// One tool-specific strategy for producing the interface inventory: a
/// detection command with a predicate over its output, and an execution
/// command with a parser over its output.
#[derive(Debug, Clone, Copy, PartialEq, Eq, Structural)]
pub enum ConcreteCommand {
    /// The modern `ip`-utility dialect.
    IpUtility,
    /// The legacy `ifconfig` dialect.
    IfConfig,
}

impl ConcreteCommand {
    pub open spec fn detection_command_text(self) -> Seq<char> {
        match self {
            ConcreteCommand::IpUtility => "ip -V"@,
            ConcreteCommand::IfConfig => "ifconfig -s lo"@,
        }
    }

    pub open spec fn execution_command_text(self) -> Seq<char> {
        match self {
            ConcreteCommand::IpUtility => "ip a"@,
            ConcreteCommand::IfConfig => "ifconfig"@,
        }
    }

    /// The detection predicate: the probe output names the tool family.
    pub open spec fn detection_matches(self, out: Seq<char>) -> bool {
        match self {
            ConcreteCommand::IpUtility => contains_seq(out, "ip utility"@),
            ConcreteCommand::IfConfig => contains_seq(out, "Iface"@),
        }
    }

    /// What this implementation's parser yields on an execution output.
    pub open spec fn parse_execution_text(self, out: Seq<char>) -> Result<
        Seq<InterfaceSpec>,
        ParseFailureSpec,
    > {
        match self {
            ConcreteCommand::IpUtility => parse_ip_output_text(out),
            ConcreteCommand::IfConfig => parse_ifc_output_text(out),
        }
    }

    /// The cheap probe command run first to test applicability.
    pub fn detection_command(&self) -> (c: CommandString)
        ensures
            c@ == self.detection_command_text(),
    {
        match self {
            ConcreteCommand::IpUtility => CommandString::Static("ip -V"),
            ConcreteCommand::IfConfig => CommandString::Static("ifconfig -s lo"),
        }
    }

    /// The command that produces the fact's raw output.
    pub fn execution_command(&self) -> (c: CommandString)
        ensures
            c@ == self.execution_command_text(),
    {
        match self {
            ConcreteCommand::IpUtility => CommandString::Static("ip a"),
            ConcreteCommand::IfConfig => CommandString::Static("ifconfig"),
        }
    }

    /// Apply the detection predicate to a probe output.
    pub fn parse_detection_output(&self, output: &str) -> (r: bool)
        ensures
            r == self.detection_matches(output@),
    {
        proof {
            reveal_strlit("ip utility");
            reveal_strlit("Iface");
        }
        match self {
            ConcreteCommand::IpUtility => contains_lit(output, "ip utility"),
            ConcreteCommand::IfConfig => contains_lit(output, "Iface"),
        }
    }

    /// Parse an execution output into interface records.
    pub fn parse_execution_output(&self, output: &str) -> (r: Result<Vec<Interface>, ParseFailure>)
        ensures
            parse_outcome(r) == self.parse_execution_text(output@),
    {
        match self {
            ConcreteCommand::IpUtility => parse_ip_output(output),
            ConcreteCommand::IfConfig => parse_ifc_output(output),
        }
    }
}

// ---------------------------------------------------------------------------
// The dispatch model
// ---------------------------------------------------------------------------

/// Whether detection selects `imp` on `ex`: its detection command succeeds
/// and the predicate holds of the output. A failed detection command never
/// selects and never escalates.
pub open spec fn detection_selects<E: CommandExecutor>(imp: ConcreteCommand, ex: E) -> bool {
    match ex.response(imp.detection_command_text()) {
        Ok(out) => imp.detection_matches(out),
        Err(_) => false,
    }
}

/// Index of the first implementation at or after `i` that detection
/// selects, or the catalog length when none is.
pub open spec fn first_selected_from<E: CommandExecutor>(
    catalog: Seq<ConcreteCommand>,
    ex: E,
    i: int,
) -> int
    decreases catalog.len() - i
    when 0 <= i <= catalog.len()
{
    if i >= catalog.len() {
        i
    } else if detection_selects(catalog[i], ex) {
        i
    } else {
        first_selected_from(catalog, ex, i + 1)
    }
}

/// The detection commands of the first `k` catalog entries, in order.
pub open spec fn detection_commands(catalog: Seq<ConcreteCommand>, k: int) -> Seq<Seq<char>> {
    Seq::new(k as nat, |i: int| catalog[i].detection_command_text())
}

/// Every command one dispatch issues, in order: the detection probes up to
/// and including the first selected implementation, then that
/// implementation's execution command — and no other implementation's; or
/// every probe and no execution command at all when none is selected.
pub open spec fn dispatch_trace<E: CommandExecutor>(
    catalog: Seq<ConcreteCommand>,
    ex: E,
) -> Seq<Seq<char>> {
    let k = first_selected_from(catalog, ex, 0);
    if k < catalog.len() {
        detection_commands(catalog, k + 1).push(catalog[k].execution_command_text())
    } else {
        detection_commands(catalog, catalog.len() as int)
    }
}

/// What one dispatch returns: the first selected implementation's parsed
/// records or its own failure, with no fallback after selection; or
/// `NoApplicableImplementation` when every entry fails detection.
pub open spec fn dispatch_outcome<E: CommandExecutor>(
    fact_kind: FactKind,
    catalog: Seq<ConcreteCommand>,
    ex: E,
) -> Result<Seq<InterfaceSpec>, DispatchFailureSpec> {
    let k = first_selected_from(catalog, ex, 0);
    if k == catalog.len() {
        Err(DispatchFailureSpec::NoApplicableImplementation { fact_kind })
    } else {
        match ex.response(catalog[k].execution_command_text()) {
            Err(f) => Err(DispatchFailureSpec::Execution(f)),
            Ok(out) => match catalog[k].parse_execution_text(out) {
                Ok(recs) => Ok(recs),
                Err(pe) => Err(DispatchFailureSpec::Parse(pe)),
            },
        }
    }
}

/// The outcome of a dispatch, viewed mathematically.
pub open spec fn dispatch_result_view(r: Result<Vec<Interface>, DispatchFailure>) -> Result<
    Seq<InterfaceSpec>,
    DispatchFailureSpec,
> {
    match r {
        Ok(v) => Ok(v.deep_view()),
        Err(e) => Err(e@),
    }
}

/// The selection index is the least one: it lies in the catalog bounds,
/// detection selects it when it is a real index, and detection selects no
/// implementation before it.
pub proof fn lemma_first_selected_least<E: CommandExecutor>(
    catalog: Seq<ConcreteCommand>,
    ex: E,
    i: int,
)
    requires
        0 <= i <= catalog.len(),
    ensures
        i <= first_selected_from(catalog, ex, i) <= catalog.len(),
        first_selected_from(catalog, ex, i) < catalog.len() ==> detection_selects(
            catalog[first_selected_from(catalog, ex, i)],
            ex,
        ),
        forall|j: int|
            i <= j < first_selected_from(catalog, ex, i) ==> !detection_selects(catalog[j], ex),
    decreases catalog.len() - i,
{
    if i < catalog.len() && !detection_selects(catalog[i], ex) {
        lemma_first_selected_least(catalog, ex, i + 1);
    }
}

/// When implementation `k` is the first whose detection selects it, the
/// dispatch issues exactly the detection commands of implementations 0
/// through `k` and then `k`'s execution command: detection is never probed
/// past `k`, and no other implementation's execution command is issued.
pub proof fn lemma_selected_dispatch_probes_no_further<E: CommandExecutor>(
    catalog: Seq<ConcreteCommand>,
    ex: E,
    k: int,
)
    requires
        0 <= k < catalog.len(),
        detection_selects(catalog[k], ex),
        forall|j: int| 0 <= j < k ==> !detection_selects(catalog[j], ex),
    ensures
        first_selected_from(catalog, ex, 0) == k,
        dispatch_trace(catalog, ex) == detection_commands(catalog, k + 1).push(
            catalog[k].execution_command_text(),
        ),
        dispatch_outcome(FactKind::InterfaceInventory, catalog, ex) != Err::<
            Seq<InterfaceSpec>,
            DispatchFailureSpec,
        >(
            DispatchFailureSpec::NoApplicableImplementation {
                fact_kind: FactKind::InterfaceInventory,
            },
        ),
{
    lemma_first_selected_least(catalog, ex, 0);
    let f = first_selected_from(catalog, ex, 0);
    if f < k {
        assert(detection_selects(catalog[f], ex));
    }
    if f > k {
        assert(!detection_selects(catalog[k], ex));
    }
}

/// When no implementation's detection selects it — every probe fails or
/// its predicate returns false — the dispatch returns
/// `NoApplicableImplementation` and its trace holds the detection probes
/// alone: no execution command is ever issued.
pub proof fn lemma_exhausted_dispatch_issues_no_execution<E: CommandExecutor>(
    fact_kind: FactKind,
    catalog: Seq<ConcreteCommand>,
    ex: E,
)
    requires
        forall|j: int| 0 <= j < catalog.len() ==> !detection_selects(catalog[j], ex),
    ensures
        dispatch_trace(catalog, ex) == detection_commands(catalog, catalog.len() as int),
        dispatch_outcome(fact_kind, catalog, ex) == Err::<
            Seq<InterfaceSpec>,
            DispatchFailureSpec,
        >(DispatchFailureSpec::NoApplicableImplementation { fact_kind }),
{
    lemma_first_selected_least(catalog, ex, 0);
    let f = first_selected_from(catalog, ex, 0);
    if f < catalog.len() {
        assert(detection_selects(catalog[f], ex));
    }
}

/// Try each implementation in catalog order: run its detection command and
/// predicate, and on the first match run that implementation's execution
/// command and parser; whatever that returns is final. A detection failure
/// only skips the entry; when the catalog is exhausted the dispatch fails.
///
/// The ensured command trace pins the discipline down: detections are
/// issued only up to the first selected implementation — never past it —
/// and the one execution command issued is the selected implementation's;
/// when nothing is selected, no execution command is issued at all.
pub fn resolve_and_run<E: CommandExecutor>(
    fact_kind: FactKind,
    catalog: &Vec<ConcreteCommand>,
    executor: &mut E,
) -> (r: Result<Vec<Interface>, DispatchFailure>)
    ensures
        forall|c: Seq<char>| final(executor).response(c) == old(executor).response(c),
        final(executor).log() == old(executor).log() + dispatch_trace(
            catalog@,
            *old(executor),
        ),
        dispatch_result_view(r) == dispatch_outcome(fact_kind, catalog@, *old(executor)),
{
    let mut i: usize = 0;
    while i < catalog.len()
        invariant
            0 <= i <= catalog@.len(),
            forall|c: Seq<char>| executor.response(c) == old(executor).response(c),
            executor.log() == old(executor).log() + detection_commands(catalog@, i as int),
            first_selected_from(catalog@, *old(executor), 0) == first_selected_from(
                catalog@,
                *old(executor),
                i as int,
            ),
        decreases catalog@.len() - i,
    {
        let imp = catalog[i];
        let dc = imp.detection_command();
        let dout = executor.execute(dc.as_str());
        proof {
            assert(executor.log() =~= old(executor).log() + detection_commands(
                catalog@,
                i as int + 1,
            ));
        }
        let selected = match dout {
            Ok(out) => imp.parse_detection_output(out.as_str()),
            Err(_) => false,
        };
        proof {
            assert(selected == detection_selects(imp, *old(executor)));
        }
        if selected {
            proof {
                assert(first_selected_from(catalog@, *old(executor), i as int) == i as int);
            }
            let ec = imp.execution_command();
            let eout = executor.execute(ec.as_str());
            proof {
                assert(executor.log() =~= old(executor).log() + dispatch_trace(
                    catalog@,
                    *old(executor),
                ));
            }
            match eout {
                Ok(out) => match imp.parse_execution_output(out.as_str()) {
                    Ok(recs) => {
                        return Ok(recs);
                    },
                    Err(pe) => {
                        return Err(DispatchFailure::Parse(pe));
                    },
                },
                Err(f) => {
                    return Err(DispatchFailure::Execution(f));
                },
            }
        }
        proof {
            assert(first_selected_from(catalog@, *old(executor), i as int)
                == first_selected_from(catalog@, *old(executor), i as int + 1));
        }
        i = i + 1;
    }
    proof {
        assert(first_selected_from(catalog@, *old(executor), 0) == catalog@.len());
        assert(executor.log() =~= old(executor).log() + dispatch_trace(
            catalog@,
            *old(executor),
        ));
    }
    Err(DispatchFailure::NoApplicableImplementation { fact_kind })
}

// ---------------------------------------------------------------------------
// Virtual commands
// ---------------------------------------------------------------------------

/// A fact-producing command realized by an ordered catalog of concrete
/// implementations; catalog order encodes preference and is the sole
/// tie-break.
pub trait VirtualCommand {
    spec fn fact_kind_of(&self) -> FactKind;

    spec fn catalog(&self) -> Seq<ConcreteCommand>;

    /// The catalog, first preference first; fixed configuration, never
    /// mutated at runtime.
    fn implementations(&self) -> (r: Vec<ConcreteCommand>)
        ensures
            r@ == self.catalog(),
    ;

    /// Dispatch this command over its catalog on the given executor.
    fn execute<E: CommandExecutor>(&self, executor: &mut E) -> (r: Result<
        Vec<Interface>,
        DispatchFailure,
    >)
        ensures
            forall|c: Seq<char>| final(executor).response(c) == old(executor).response(c),
            final(executor).log() == old(executor).log() + dispatch_trace(
                self.catalog(),
                *old(executor),
            ),
            dispatch_result_view(r) == dispatch_outcome(
                self.fact_kind_of(),
                self.catalog(),
                *old(executor),
            ),
    ;
}

/// The interface-inventory fact: try the modern tool first, then the
/// legacy one.
pub struct ListInterfaces;

impl ListInterfaces {
    pub open spec fn inventory_catalog() -> Seq<ConcreteCommand> {
        seq![ConcreteCommand::IpUtility, ConcreteCommand::IfConfig]
    }
}

impl VirtualCommand for ListInterfaces {
    open spec fn fact_kind_of(&self) -> FactKind {
        FactKind::InterfaceInventory
    }

    open spec fn catalog(&self) -> Seq<ConcreteCommand> {
        ListInterfaces::inventory_catalog()
    }

    fn implementations(&self) -> (r: Vec<ConcreteCommand>) {
        let mut v: Vec<ConcreteCommand> = Vec::new();
        v.push(ConcreteCommand::IpUtility);
        v.push(ConcreteCommand::IfConfig);
        proof {
            assert(v@ =~= ListInterfaces::inventory_catalog());
        }
        v
    }

    fn execute<E: CommandExecutor>(&self, executor: &mut E) -> (r: Result<
        Vec<Interface>,
        DispatchFailure,
    >) {
        let catalog = self.implementations();
        resolve_and_run(FactKind::InterfaceInventory, &catalog, executor)
    }
}

} // verus!
