//! What the client builder decides before it hands the executor its
//! modules: which module is primary, which modules are initialised, which are
//! recovered, and when initialisation is complete.

use vstd::prelude::*;
use crate::dyn_state::ModuleDecoderRegistry;
use crate::executor::{Executor, ExecutorBuilder};
use crate::ids::ModuleInstanceId;

verus! {

/// The module instance that submits transactions; the executor always has
/// its context.
pub const TRANSACTION_SUBMISSION_MODULE_INSTANCE: ModuleInstanceId = 0xFFFF;

/// How a client database is to be initialised.
#[derive(Debug)]
pub enum InitMode {
    /// A client that joins for the first time.
    Fresh,
    /// A client that recovers its modules' state, from a backup if it has
    /// one.
    Recover { snapshot: Option<Vec<u8>> },
}

/// How a client database was initialised.
#[derive(Clone, Copy, Debug, PartialEq, Eq, Structural)]
pub enum InitModeComplete {
    Fresh,
    Recover,
}

/// How far the initialisation of a client database has come.
#[derive(Debug)]
pub enum InitState {
    /// Initialisation has begun and recovery, if any, is not done.
    Pending(InitMode),
    /// Initialisation is done.
    Complete(InitModeComplete),
}

/// An initialisation state as a mathematical value.
pub enum InitStateView {
    PendingFresh,
    PendingRecover { snapshot: Option<Seq<u8>> },
    Complete(InitModeComplete),
}

impl View for InitState {
    type V = InitStateView;

    open spec fn view(&self) -> InitStateView {
        match self {
            InitState::Pending(InitMode::Fresh) => InitStateView::PendingFresh,
            InitState::Pending(InitMode::Recover { snapshot }) => InitStateView::PendingRecover {
                snapshot: match snapshot {
                    Some(bytes) => Some(bytes@),
                    None => None,
                },
            },
            InitState::Complete(mode) => InitStateView::Complete(*mode),
        }
    }
}

impl InitStateView {
    /// The state that follows when every recovery is done.
    pub open spec fn completed(self) -> InitStateView {
        match self {
            InitStateView::PendingFresh => InitStateView::Complete(InitModeComplete::Fresh),
            InitStateView::PendingRecover { .. } => InitStateView::Complete(
                InitModeComplete::Recover,
            ),
            InitStateView::Complete(mode) => InitStateView::Complete(mode),
        }
    }
}

impl InitState {
    /// The state of a database that holds none: one that was initialised
    /// before the state was recorded counts as complete.
    pub fn or_complete(stored: Option<InitState>) -> (state: InitState)
        ensures
            match stored {
                Some(found) => state@ == found@,
                None => state@ == InitStateView::Complete(InitModeComplete::Fresh),
            },
    {
        match stored {
            Some(found) => found,
            None => InitState::Complete(InitModeComplete::Fresh),
        }
    }

    /// Tells whether the modules are to be recovered.
    pub fn does_require_recovery(&self) -> (required: bool)
        ensures
            required == (self@ is PendingRecover),
    {
        match self {
            InitState::Pending(InitMode::Recover { .. }) => true,
            _ => false,
        }
    }

    /// Tells whether initialisation is still under way.
    pub fn is_pending(&self) -> (pending: bool)
        ensures
            pending == !(self@ is Complete),
    {
        match self {
            InitState::Pending(_) => true,
            InitState::Complete(_) => false,
        }
    }

    /// The state that follows when every recovery is done.
    pub fn into_complete(self) -> (state: InitState)
        ensures
            state@ == self@.completed(),
    {
        match self {
            InitState::Pending(InitMode::Fresh) => InitState::Complete(InitModeComplete::Fresh),
            InitState::Pending(InitMode::Recover { .. }) => InitState::Complete(
                InitModeComplete::Recover,
            ),
            InitState::Complete(mode) => InitState::Complete(mode),
        }
    }
}

/// How far the recovery of one module has come.
#[derive(Clone, Copy, Debug, PartialEq, Eq, Structural)]
pub struct ModuleRecoveryState {
    pub progress: u64,
    pub done: bool,
}

impl ModuleRecoveryState {
    /// The state of a recovery that has not begun.
    pub fn none() -> (state: Self)
        ensures
            state == (ModuleRecoveryState { progress: 0, done: false }),
    {
        ModuleRecoveryState { progress: 0, done: false }
    }

    /// Tells whether the recovery is done.
    pub fn is_done(&self) -> (done: bool)
        ensures
            done == self.done,
    {
        self.done
    }
}

/// What the builder knows of one module instance of the federation's
/// configuration.
#[derive(Debug)]
pub struct ModuleSetup {
    /// The instance.
    pub instance_id: ModuleInstanceId,
    /// The kind of module.
    pub kind: String,
    /// Whether the client has an initialiser for the kind.
    pub has_init: bool,
    /// Whether client and federation share an API version for the instance.
    pub has_api_version: bool,
    /// The recovery state stored for the instance, if one is stored.
    pub recovery: Option<ModuleRecoveryState>,
    /// Whether the module can be the primary module.
    pub supports_being_primary: bool,
}

/// A module's setup as a mathematical value.
pub struct ModuleSetupView {
    pub instance_id: ModuleInstanceId,
    pub kind: Seq<char>,
    pub has_init: bool,
    pub has_api_version: bool,
    pub recovery: Option<ModuleRecoveryState>,
    pub supports_being_primary: bool,
}

impl View for ModuleSetup {
    type V = ModuleSetupView;

    open spec fn view(&self) -> ModuleSetupView {
        ModuleSetupView {
            instance_id: self.instance_id,
            kind: self.kind@,
            has_init: self.has_init,
            has_api_version: self.has_api_version,
            recovery: self.recovery,
            supports_being_primary: self.supports_being_primary,
        }
    }
}

/// The setups of a list as mathematical values.
pub open spec fn setup_views(modules: Seq<ModuleSetup>) -> Seq<ModuleSetupView> {
    modules.map_values(|m: ModuleSetup| m@)
}

/// What the builder does with a module instance.
#[derive(Clone, Copy, Debug, PartialEq, Eq, Structural)]
pub enum ModuleAction {
    /// The client has no initialiser for the kind: the instance is left out.
    SkipUnknownKind,
    /// No API version is shared: the instance is left out.
    SkipIncompatible,
    /// The module is recovered from `progress` on; `fresh` says that no
    /// recovery state was stored, so that one is written first.
    Recover { progress: u64, fresh: bool },
    /// The module is initialised.
    Init,
}

/// What is done with a module instance, given whether the client recovers.
pub open spec fn action_for(recovering: bool, module: ModuleSetupView) -> ModuleAction {
    if !module.has_init {
        ModuleAction::SkipUnknownKind
    } else if !module.has_api_version {
        ModuleAction::SkipIncompatible
    } else if !recovering {
        ModuleAction::Init
    } else {
        match module.recovery {
            Some(state) => if state.done {
                ModuleAction::Init
            } else {
                ModuleAction::Recover { progress: state.progress, fresh: false }
            },
            None => ModuleAction::Recover { progress: 0, fresh: true },
        }
    }
}

/// Decides what to do with a module instance.
pub fn module_action(recovering: bool, module: &ModuleSetup) -> (action: ModuleAction)
    ensures
        action == action_for(recovering, module@),
{
    if !module.has_init {
        ModuleAction::SkipUnknownKind
    } else if !module.has_api_version {
        ModuleAction::SkipIncompatible
    } else if !recovering {
        ModuleAction::Init
    } else {
        match module.recovery {
            Some(state) => if state.is_done() {
                ModuleAction::Init
            } else {
                ModuleAction::Recover { progress: state.progress, fresh: false }
            },
            None => ModuleAction::Recover { progress: ModuleRecoveryState::none().progress, fresh: true },
        }
    }
}

/// Why a client cannot be built.
#[derive(Clone, Copy, Debug, PartialEq, Eq, Structural)]
pub enum BuildError {
    /// The module chosen as primary cannot be primary.
    NotPrimaryCapable(ModuleInstanceId),
    /// No primary module was chosen and none was found.
    NoPrimaryModule,
}

/// The instance of the first module of the given kind, if there is one.
pub open spec fn first_of_kind(modules: Seq<ModuleSetupView>, kind: Seq<char>) -> Option<
    ModuleInstanceId,
>
    decreases modules.len(),
{
    if modules.len() == 0 {
        None
    } else {
        match first_of_kind(modules.drop_last(), kind) {
            Some(id) => Some(id),
            None => if modules.last().kind == kind {
                Some(modules.last().instance_id)
            } else {
                None
            },
        }
    }
}

/// The primary module after the modules were gone through in order,
/// starting from `chosen`: of the modules that are initialised, the first
/// that can be primary becomes primary where none is chosen, and a chosen one
/// that cannot be primary is an error.
pub open spec fn primary_after(
    chosen: Option<ModuleInstanceId>,
    modules: Seq<ModuleSetupView>,
    recovering: bool,
) -> Result<Option<ModuleInstanceId>, BuildError>
    decreases modules.len(),
{
    if modules.len() == 0 {
        Ok(chosen)
    } else {
        let module = modules.last();
        match primary_after(chosen, modules.drop_last(), recovering) {
            Err(e) => Err(e),
            Ok(primary) => if action_for(recovering, module) != ModuleAction::Init {
                Ok(primary)
            } else if primary is None && module.supports_being_primary {
                Ok(Some(module.instance_id))
            } else if primary == Some(module.instance_id) && !module.supports_being_primary {
                Err(BuildError::NotPrimaryCapable(module.instance_id))
            } else {
                Ok(primary)
            },
        }
    }
}

/// Some module is recovered.
pub open spec fn any_recovery(modules: Seq<ModuleSetupView>, recovering: bool) -> bool {
    exists|i: int|
        0 <= i < modules.len() && action_for(recovering, #[trigger] modules[i]) is Recover
}

/// What the builder has decided for a client.
#[derive(Debug)]
pub struct ClientPlan {
    /// The primary module.
    pub primary_module_instance: ModuleInstanceId,
    /// What is done with each module, in the order of the modules.
    pub actions: Vec<ModuleAction>,
    /// Whether the initialisation state is to be recorded as complete.
    pub complete_init: bool,
}

/// Collects what a client is built from, as far as it decides the plan.
#[derive(Debug)]
pub struct ClientBuilder {
    primary_module_instance: Option<ModuleInstanceId>,
    primary_module_kind: Option<String>,
    stopped: bool,
}

/// A builder as a mathematical value.
pub struct ClientBuilderView {
    pub primary_module_instance: Option<ModuleInstanceId>,
    pub primary_module_kind: Option<Seq<char>>,
    pub stopped: bool,
}

impl View for ClientBuilder {
    type V = ClientBuilderView;

    closed spec fn view(&self) -> ClientBuilderView {
        ClientBuilderView {
            primary_module_instance: self.primary_module_instance,
            primary_module_kind: match self.primary_module_kind {
                Some(kind) => Some(kind@),
                None => None,
            },
            stopped: self.stopped,
        }
    }
}

impl ClientBuilderView {
    /// The primary module before the modules are gone through: the chosen
    /// instance, else the first module of the chosen kind.
    pub open spec fn chosen(self, modules: Seq<ModuleSetupView>) -> Option<ModuleInstanceId> {
        match self.primary_module_instance {
            Some(id) => Some(id),
            None => match self.primary_module_kind {
                Some(kind) => first_of_kind(modules, kind),
                None => None,
            },
        }
    }
}

impl ClientBuilder {
    /// A builder with nothing chosen; the client it builds starts its
    /// executor.
    pub fn new() -> (builder: Self)
        ensures
            builder@ == (ClientBuilderView {
                primary_module_instance: None,
                primary_module_kind: None,
                stopped: false,
            }),
    {
        ClientBuilder { primary_module_instance: None, primary_module_kind: None, stopped: false }
    }

    /// Lets the client be built without starting its executor.
    pub fn stopped(&mut self)
        ensures
            final(self)@ == (ClientBuilderView { stopped: true, ..old(self)@ }),
    {
        self.stopped = true;
    }

    /// Tells whether the executor is started once the client is built.
    pub fn starts_executor(&self) -> (starts: bool)
        ensures
            starts == !self@.stopped,
    {
        !self.stopped
    }

    /// The instance chosen as primary module, if one was chosen.
    pub fn primary_module_instance(&self) -> (chosen: Option<ModuleInstanceId>)
        ensures
            chosen == self@.primary_module_instance,
    {
        self.primary_module_instance
    }

    /// Tells whether a kind was chosen for the primary module.
    pub fn has_primary_module_kind(&self) -> (chosen: bool)
        ensures
            chosen == self@.primary_module_kind is Some,
    {
        self.primary_module_kind.is_some()
    }

    /// Chooses the module instance that is primary. Only one may be chosen.
    pub fn with_primary_module(&mut self, primary_module_instance: ModuleInstanceId)
        requires
            old(self)@.primary_module_instance is None,
        ensures
            final(self)@ == (ClientBuilderView {
                primary_module_instance: Some(primary_module_instance),
                ..old(self)@
            }),
    {
        self.with_primary_module_instance_id(primary_module_instance);
    }

    /// Chooses the module instance that is primary. Only one may be chosen.
    pub fn with_primary_module_instance_id(&mut self, primary_module_instance: ModuleInstanceId)
        requires
            old(self)@.primary_module_instance is None,
        ensures
            final(self)@ == (ClientBuilderView {
                primary_module_instance: Some(primary_module_instance),
                ..old(self)@
            }),
    {
        self.primary_module_instance = Some(primary_module_instance);
    }

    /// Chooses the kind of module that is primary if the configuration has
    /// one of it. Only one kind may be chosen.
    pub fn with_primary_module_kind(&mut self, primary_module_kind: String)
        requires
            old(self)@.primary_module_kind is None,
        ensures
            final(self)@ == (ClientBuilderView {
                primary_module_kind: Some(primary_module_kind@),
                ..old(self)@
            }),
    {
        self.primary_module_kind = Some(primary_module_kind);
    }

    fn chosen_primary(&self, modules: &Vec<ModuleSetup>) -> (chosen: Option<ModuleInstanceId>)
        ensures
            chosen == self@.chosen(setup_views(modules@)),
    {
        if let Some(id) = self.primary_module_instance {
            return Some(id);
        }
        let kind = match &self.primary_module_kind {
            Some(kind) => kind,
            None => {
                return None;
            },
        };
        let ghost all = setup_views(modules@);
        let mut i: usize = 0;
        assert(all.subrange(0, 0) =~= Seq::<ModuleSetupView>::empty());
        while i < modules.len()
            invariant
                i <= modules.len(),
                all == setup_views(modules@),
                self@.primary_module_instance is None,
                self@.primary_module_kind == Some(kind@),
                first_of_kind(all.subrange(0, i as int), kind@) is None,
            decreases modules.len() - i,
        {
            let module = &modules[i];
            proof {
                let next = all.subrange(0, i + 1);
                assert(next.drop_last() == all.subrange(0, i as int));
                assert(next.last() == module@);
            }
            if module.kind == *kind {
                proof {
                    assert(first_of_kind(all.subrange(0, i + 1), kind@) == Some(
                        module.instance_id,
                    ));
                    lemma_first_of_kind_prefix(all, kind@, i + 1);
                }
                return Some(module.instance_id);
            }
            i += 1;
        }
        assert(all.subrange(0, i as int) == all);
        None
    }

    /// Decides how the client is built from the modules of the
    /// configuration, given in the order of their instance ids, and from the
    /// stored initialisation state.
    ///
    /// Each module gets its action. The primary module is the chosen
    /// instance, else the first module of the chosen kind, else the first
    /// initialised module that can be primary; a chosen module that is
    /// initialised and cannot be primary is an error, and so is a client
    /// without a primary module. Initialisation is recorded as complete when
    /// it was pending and no module is recovered.
    pub fn plan(&self, init_state: &InitState, modules: &Vec<ModuleSetup>) -> (r: Result<
        ClientPlan,
        BuildError,
    >)
        ensures
            ({
                let recovering = init_state@ is PendingRecover;
                let all = setup_views(modules@);
                match primary_after(self@.chosen(all), all, recovering) {
                    Err(e) => r == Err::<ClientPlan, BuildError>(e),
                    Ok(None) => r == Err::<ClientPlan, BuildError>(BuildError::NoPrimaryModule),
                    Ok(Some(primary)) => {
                        &&& r matches Ok(plan)
                        &&& plan.primary_module_instance == primary
                        &&& plan.actions@ == all.map_values(
                            |m: ModuleSetupView| action_for(recovering, m),
                        )
                        &&& plan.complete_init == (!(init_state@ is Complete) && !any_recovery(
                            all,
                            recovering,
                        ))
                    },
                }
            }),
    {
        let recovering = init_state.does_require_recovery();
        let ghost all = setup_views(modules@);
        let mut primary = self.chosen_primary(modules);
        let mut actions: Vec<ModuleAction> = Vec::new();
        let mut recoveries = false;
        let mut i: usize = 0;
        assert(all.subrange(0, 0) =~= Seq::<ModuleSetupView>::empty());
        while i < modules.len()
            invariant
                i <= modules.len(),
                all == setup_views(modules@),
                recovering == (init_state@ is PendingRecover),
                primary_after(self@.chosen(all), all.subrange(0, i as int), recovering) == Ok::<
                    Option<ModuleInstanceId>,
                    BuildError,
                >(primary),
                actions@ == all.subrange(0, i as int).map_values(
                    |m: ModuleSetupView| action_for(recovering, m),
                ),
                recoveries == any_recovery(all.subrange(0, i as int), recovering),
            decreases modules.len() - i,
        {
            let module = &modules[i];
            let ghost done = all.subrange(0, i as int);
            let ghost next = all.subrange(0, i + 1);
            proof {
                assert(next.drop_last() == done);
                assert(next.last() == module@);
            }
            let action = module_action(recovering, module);
            match action {
                ModuleAction::Init => {
                    if primary.is_none() && module.supports_being_primary {
                        primary = Some(module.instance_id);
                    } else if primary == Some(module.instance_id)
                        && !module.supports_being_primary {
                        proof {
                            lemma_primary_error_prefix(self@.chosen(all), all, recovering, i + 1);
                        }
                        return Err(BuildError::NotPrimaryCapable(module.instance_id));
                    }
                },
                ModuleAction::Recover { .. } => {
                    recoveries = true;
                },
                _ => {},
            }
            actions.push(action);
            proof {
                assert(actions@ =~= next.map_values(
                    |m: ModuleSetupView| action_for(recovering, m),
                ));
                if any_recovery(done, recovering) {
                    let k = choose|k: int|
                        0 <= k < done.len() && action_for(recovering, #[trigger] done[k])
                            is Recover;
                    assert(next[k] == done[k]);
                }
                if any_recovery(next, recovering) {
                    let k = choose|k: int|
                        0 <= k < next.len() && action_for(recovering, #[trigger] next[k])
                            is Recover;
                    if k < i {
                        assert(done[k] == next[k]);
                    }
                }
                if action is Recover {
                    assert(action_for(recovering, next[i as int]) is Recover);
                }
            }
            i += 1;
        }
        assert(all.subrange(0, i as int) == all);
        match primary {
            None => Err(BuildError::NoPrimaryModule),
            Some(primary_module_instance) => Ok(
                ClientPlan {
                    primary_module_instance,
                    actions,
                    complete_init: init_state.is_pending() && !recoveries,
                },
            ),
        }
    }
}

/// A module of the kind in a prefix of the modules is the first of its kind
/// in the whole list too.
pub proof fn lemma_first_of_kind_prefix(modules: Seq<ModuleSetupView>, kind: Seq<char>, len: int)
    requires
        0 <= len <= modules.len(),
        first_of_kind(modules.subrange(0, len), kind) is Some,
    ensures
        first_of_kind(modules, kind) == first_of_kind(modules.subrange(0, len), kind),
    decreases modules.len() - len,
{
    if len < modules.len() {
        let next = modules.subrange(0, len + 1);
        assert(next.drop_last() == modules.subrange(0, len));
        lemma_first_of_kind_prefix(modules, kind, len + 1);
    } else {
        assert(modules.subrange(0, len) == modules);
    }
}

/// An error met in a prefix of the modules is the error of the whole list.
pub proof fn lemma_primary_error_prefix(
    chosen: Option<ModuleInstanceId>,
    modules: Seq<ModuleSetupView>,
    recovering: bool,
    len: int,
)
    requires
        0 <= len <= modules.len(),
        primary_after(chosen, modules.subrange(0, len), recovering) is Err,
    ensures
        primary_after(chosen, modules, recovering) == primary_after(
            chosen,
            modules.subrange(0, len),
            recovering,
        ),
    decreases modules.len() - len,
{
    if len < modules.len() {
        let next = modules.subrange(0, len + 1);
        assert(next.drop_last() == modules.subrange(0, len));
        lemma_primary_error_prefix(chosen, modules, recovering, len + 1);
    } else {
        assert(modules.subrange(0, len) == modules);
    }
}

/// The modules that the plan initialises, in order.
pub open spec fn initialised(modules: Seq<ModuleSetupView>, actions: Seq<ModuleAction>) -> Set<
    ModuleInstanceId,
> {
    Set::new(
        |id: ModuleInstanceId|
            exists|i: int|
                0 <= i < modules.len() && i < actions.len() && (#[trigger] modules[i]).instance_id
                    == id && actions[i] is Init,
    )
}

/// The modules that the plan recovers.
pub open spec fn recovered(modules: Seq<ModuleSetupView>, actions: Seq<ModuleAction>) -> Set<
    ModuleInstanceId,
> {
    Set::new(
        |id: ModuleInstanceId|
            exists|i: int|
                0 <= i < modules.len() && i < actions.len() && (#[trigger] modules[i]).instance_id
                    == id && actions[i] is Recover,
    )
}

/// Configures the executor of a planned client: the transaction
/// submission module and every initialised module get a context, and every
/// module under recovery is valid without one.
pub fn executor_builder(modules: &Vec<ModuleSetup>, plan: &ClientPlan) -> (builder: ExecutorBuilder)
    requires
        plan.actions@.len() == modules@.len(),
    ensures
        builder.modules() == initialised(setup_views(modules@), plan.actions@).insert(
            TRANSACTION_SUBMISSION_MODULE_INSTANCE,
        ),
        builder.valid_module_ids() == recovered(setup_views(modules@), plan.actions@),
        !builder.is_strict(),
{
    let ghost all = setup_views(modules@);
    let mut builder = Executor::builder();
    builder.with_module(TRANSACTION_SUBMISSION_MODULE_INSTANCE);
    let mut i: usize = 0;
    assert(builder.modules() =~= initialised(all.subrange(0, 0), plan.actions@).insert(
        TRANSACTION_SUBMISSION_MODULE_INSTANCE,
    ));
    assert(builder.valid_module_ids() =~= recovered(all.subrange(0, 0), plan.actions@));
    while i < modules.len()
        invariant
            i <= modules.len() == plan.actions@.len(),
            all == setup_views(modules@),
            builder.modules() == initialised(all.subrange(0, i as int), plan.actions@).insert(
                TRANSACTION_SUBMISSION_MODULE_INSTANCE,
            ),
            builder.valid_module_ids() == recovered(all.subrange(0, i as int), plan.actions@),
            !builder.is_strict(),
        decreases modules.len() - i,
    {
        let ghost done = all.subrange(0, i as int);
        let ghost next = all.subrange(0, i + 1);
        let id = modules[i].instance_id;
        assert(next[i as int].instance_id == id);
        match plan.actions[i] {
            ModuleAction::Init => {
                builder.with_module(id);
            },
            ModuleAction::Recover { .. } => {
                builder.with_valid_module_id(id);
            },
            _ => {},
        }
        proof {
            assert forall|m: ModuleInstanceId|
                initialised(next, plan.actions@).contains(m) <==> (initialised(
                    done,
                    plan.actions@,
                ).contains(m) || (m == id && plan.actions@[i as int] is Init)) by {
                if initialised(done, plan.actions@).contains(m) {
                    let k = choose|k: int|
                        0 <= k < done.len() && k < plan.actions@.len() && (
                        #[trigger] done[k]).instance_id == m && plan.actions@[k] is Init;
                    assert(next[k] == done[k]);
                }
                if initialised(next, plan.actions@).contains(m) {
                    let k = choose|k: int|
                        0 <= k < next.len() && k < plan.actions@.len() && (
                        #[trigger] next[k]).instance_id == m && plan.actions@[k] is Init;
                    if k < i {
                        assert(done[k] == next[k]);
                    }
                }
            }
            assert forall|m: ModuleInstanceId|
                recovered(next, plan.actions@).contains(m) <==> (recovered(
                    done,
                    plan.actions@,
                ).contains(m) || (m == id && plan.actions@[i as int] is Recover)) by {
                if recovered(done, plan.actions@).contains(m) {
                    let k = choose|k: int|
                        0 <= k < done.len() && k < plan.actions@.len() && (
                        #[trigger] done[k]).instance_id == m && plan.actions@[k] is Recover;
                    assert(next[k] == done[k]);
                }
                if recovered(next, plan.actions@).contains(m) {
                    let k = choose|k: int|
                        0 <= k < next.len() && k < plan.actions@.len() && (
                        #[trigger] next[k]).instance_id == m && plan.actions@[k] is Recover;
                    if k < i {
                        assert(done[k] == next[k]);
                    }
                }
            }
            assert(builder.modules() =~= initialised(next, plan.actions@).insert(
                TRANSACTION_SUBMISSION_MODULE_INSTANCE,
            ));
            assert(builder.valid_module_ids() =~= recovered(next, plan.actions@));
        }
        i += 1;
    }
    assert(all.subrange(0, i as int) == all);
    builder
}

/// The module instances whose kind the client has an initialiser for.
pub open spec fn decodable(modules: Seq<ModuleSetupView>) -> Set<ModuleInstanceId> {
    Set::new(
        |id: ModuleInstanceId|
            exists|i: int|
                0 <= i < modules.len() && (#[trigger] modules[i]).instance_id == id
                    && modules[i].has_init,
    )
}

/// The decoders of a client: one for every module instance of the
/// configuration whose kind the client has an initialiser for, and one for
/// the transaction submission module.
pub fn decoders(modules: &Vec<ModuleSetup>) -> (registry: ModuleDecoderRegistry)
    ensures
        registry@ == decodable(setup_views(modules@)).insert(
            TRANSACTION_SUBMISSION_MODULE_INSTANCE,
        ),
{
    let ghost all = setup_views(modules@);
    let mut registry = ModuleDecoderRegistry::new();
    let mut i: usize = 0;
    assert(registry@ =~= decodable(all.subrange(0, 0)));
    while i < modules.len()
        invariant
            i <= modules.len(),
            all == setup_views(modules@),
            registry@ == decodable(all.subrange(0, i as int)),
        decreases modules.len() - i,
    {
        let ghost done = all.subrange(0, i as int);
        let ghost next = all.subrange(0, i + 1);
        let module = &modules[i];
        assert(next[i as int] == module@);
        if module.has_init {
            registry.register_module(module.instance_id);
        }
        proof {
            assert forall|id: ModuleInstanceId|
                decodable(next).contains(id) <==> (decodable(done).contains(id) || (id
                    == module.instance_id && module.has_init)) by {
                if decodable(done).contains(id) {
                    let k = choose|k: int|
                        0 <= k < done.len() && (#[trigger] done[k]).instance_id == id
                            && done[k].has_init;
                    assert(next[k] == done[k]);
                }
                if decodable(next).contains(id) {
                    let k = choose|k: int|
                        0 <= k < next.len() && (#[trigger] next[k]).instance_id == id
                            && next[k].has_init;
                    if k < i {
                        assert(done[k] == next[k]);
                    }
                }
            }
            assert(registry@ =~= decodable(next));
        }
        i += 1;
    }
    assert(all.subrange(0, i as int) == all);
    registry.register_module(TRANSACTION_SUBMISSION_MODULE_INSTANCE);
    registry
}

/// What the stored hash of the root secret says of the secret at hand.
#[derive(Clone, Copy, Debug, PartialEq, Eq, Structural)]
pub enum SecretCheck {
    /// The stored hash is the hash of the secret.
    Matches,
    /// The stored hash is of another secret: the secret is wrong.
    Mismatch,
    /// No hash is stored: the hash of the secret is to be stored.
    Backfill,
}

/// Compares the stored hash of the root secret with the hash of the secret
/// that the client is opened with.
pub fn check_secret_hash(stored: Option<[u8; 32]>, derived: &[u8; 32]) -> (check: SecretCheck)
    ensures
        check == match stored {
            Some(hash) => if hash@ == derived@ {
                SecretCheck::Matches
            } else {
                SecretCheck::Mismatch
            },
            None => SecretCheck::Backfill,
        },
{
    match stored {
        None => SecretCheck::Backfill,
        Some(hash) => {
            if crate::dyn_state::bytes_equal(hash.as_slice(), derived.as_slice()) {
                SecretCheck::Matches
            } else {
                SecretCheck::Mismatch
            }
        },
    }
}

} // verus!
