use vstd::prelude::*;

verus! {

/// One scenario: how to start the machine, what its boot prints, and the
/// shell commands to try once it is up.
pub struct TestConfig {
    pub name: String,
    /// The command line that starts the machine.
    pub command: String,
    /// How long one expectation may wait for its text, in milliseconds.
    pub timeout_ms: u64,
    /// Texts the boot must print, in this order.
    pub boot_sequence: Vec<String>,
    pub shell_interactions: ShellInteractions,
}

/// The shell part of a scenario.
pub struct ShellInteractions {
    /// The text the shell prints when it waits for a command.
    pub prompt: String,
    pub tests: Vec<CommandTest>,
}

/// One shell command and the texts its output must hold, in this order.
pub struct CommandTest {
    pub command: String,
    pub expect: Vec<String>,
}

/// A command test as plain values.
pub struct CommandTestView {
    pub command: Seq<char>,
    pub expect: Seq<Seq<char>>,
}

/// A scenario as plain values.
pub struct TestConfigView {
    pub name: Seq<char>,
    pub command: Seq<char>,
    pub timeout_ms: u64,
    pub boot_sequence: Seq<Seq<char>>,
    pub prompt: Seq<char>,
    pub tests: Seq<CommandTestView>,
}

impl View for CommandTest {
    type V = CommandTestView;

    open spec fn view(&self) -> CommandTestView {
        CommandTestView { command: self.command@, expect: self.expect.deep_view() }
    }
}

impl View for TestConfig {
    type V = TestConfigView;

    open spec fn view(&self) -> TestConfigView {
        TestConfigView {
            name: self.name@,
            command: self.command@,
            timeout_ms: self.timeout_ms,
            boot_sequence: self.boot_sequence.deep_view(),
            prompt: self.shell_interactions.prompt@,
            tests: self.shell_interactions.tests@.map_values(|t: CommandTest| t@),
        }
    }
}

impl TestConfigView {
    /// Every count of the scenario fits in a `usize`, as it does for a
    /// scenario held in memory.
    pub open spec fn fits(self) -> bool {
        &&& self.boot_sequence.len() <= usize::MAX
        &&& self.tests.len() <= usize::MAX
        &&& forall|t: int| 0 <= t < self.tests.len() ==> #[trigger] self.tests[t].expect.len() <= usize::MAX
    }
}

impl TestConfig {
    /// A scenario held in memory has counts that fit in a `usize`.
    pub proof fn lemma_fits(&self)
        ensures
            self@.fits(),
    {
        assert(self.boot_sequence.len() == self@.boot_sequence.len());
        assert(self.shell_interactions.tests.len() == self@.tests.len());
        assert forall|t: int| 0 <= t < self@.tests.len() implies #[trigger] self@.tests[t].expect.len()
            <= usize::MAX by {
            let e = &self.shell_interactions.tests@[t].expect;
            assert(e.len() == self@.tests[t].expect.len());
        }
    }
}

} // verus!
