//! The exchange by snapshot and commands: a script reads what was recorded at the beginning of a
//! frame, and what it wants done is collected and carried out afterwards.

use crate::numbers::{Double, Quat, Real, Vec3};
use vstd::prelude::*;

verus! {

/// The number of a node in a snapshot.
#[derive(Debug, Clone, Copy, PartialEq, Eq, Hash, PartialOrd, Ord, Structural)]
pub struct NodeRef(pub u32);

impl NodeRef {
    /// Stands for: no node.
    #[verifier::allow_in_spec]
    pub fn none() -> NodeRef
        returns
            NodeRef(0xffff_ffff),
    {
        NodeRef(0xffff_ffff)
    }

    /// Whether this is any other number than [`NodeRef::none`].
    pub fn is_some(self) -> (result: bool)
        ensures
            result == (self != NodeRef::none()),
    {
        self.0 != 0xffff_ffff
    }

    /// A script's number taken as a node's: rounded down, and none for anything that no node can
    /// have.
    pub fn from_js(value: Double) -> (result: Self)
        ensures
            result == if value.finite() && !value.below_zero() && value.whole() < 0xffff_ffff {
                NodeRef(value.whole() as u32)
            } else {
                NodeRef::none()
            },
    {
        match value.to_index() {
            Some(n) => NodeRef(n),
            None => NodeRef::none(),
        }
    }

    /// The number for a script: exactly the node's.
    pub fn to_js(self) -> (result: Double)
        ensures
            result.exactly(self.0),
    {
        Double::from_index(self.0)
    }
}

/// A node's number survives the trip through a script's number.
pub proof fn lemma_node_ref_comes_back(node: NodeRef, there: Double, back: NodeRef)
    requires
        there.exactly(node.0),
        back == if there.finite() && !there.below_zero() && there.whole() < 0xffff_ffff {
            NodeRef(there.whole() as u32)
        } else {
            NodeRef::none()
        },
    ensures
        back == node,
{
    there.lemma_exact_counts(node.0);
}

/// A node as a script sees it.
#[derive(Debug)]
pub struct NodeState {
    pub name: String,
    pub position: Vec3,
    pub rotation: Quat,
    pub scale: Vec3,
    pub world_position: Vec3,
    pub visible: bool,
}

impl Default for NodeState {
    /// A visible node at the origin, without a name.
    fn default() -> (result: Self)
        ensures
            result.name@ == Seq::<char>::empty(),
            result.position == Vec3::zero(),
            result.rotation == Quat::identity(),
            result.scale == Vec3::one(),
            result.world_position == Vec3::zero(),
            result.visible,
    {
        NodeState {
            name: String::new(),
            position: Vec3::zero(),
            rotation: Quat::identity(),
            scale: Vec3::one(),
            world_position: Vec3::zero(),
            visible: true,
        }
    }
}

/// The nodes as they are at the beginning of a frame.
#[derive(Debug)]
pub struct Snapshot {
    pub nodes: Vec<NodeState>,
    /// The time since the last frame.
    pub dt: Real,
    /// The time since the engine was started.
    pub elapsed: Real,
}

impl Snapshot {
    pub fn new(dt: Real, elapsed: Real) -> (result: Self)
        ensures
            result.nodes@ == Seq::<NodeState>::empty(),
            result.dt == dt,
            result.elapsed == elapsed,
    {
        Snapshot { nodes: Vec::new(), dt, elapsed }
    }

    /// Records a node and gives it the next number.
    pub fn push(&mut self, state: NodeState) -> (result: NodeRef)
        requires
            old(self).nodes@.len() < 0xffff_ffff,
        ensures
            result == NodeRef(old(self).nodes@.len() as u32),
            final(self).nodes@ == old(self).nodes@.push(state),
            final(self).dt == old(self).dt,
            final(self).elapsed == old(self).elapsed,
    {
        let number: u32 = self.nodes.len() as u32;
        self.nodes.push(state);
        NodeRef(number)
    }

    pub fn len(&self) -> (result: usize)
        ensures
            result == self.nodes@.len(),
    {
        self.nodes.len()
    }

    pub fn is_empty(&self) -> (result: bool)
        ensures
            result == (self.nodes@.len() == 0),
    {
        self.nodes.len() == 0
    }

    /// The node of that number, if there is one.
    pub fn node(&self, node: NodeRef) -> (result: Option<&NodeState>)
        ensures
            result is Some <==> node.0 < self.nodes@.len(),
            result matches Some(state) ==> *state == self.nodes@[node.0 as int],
    {
        if (node.0 as usize) < self.nodes.len() {
            Some(&self.nodes[node.0 as usize])
        } else {
            None
        }
    }

    /// The first node of that name.
    pub fn find(&self, name: &str) -> (result: NodeRef)
        requires
            self.nodes@.len() <= 0xffff_ffff,
        ensures
            result != NodeRef::none() ==> {
                &&& result.0 < self.nodes@.len()
                &&& self.nodes@[result.0 as int].name@ == name@
                &&& forall|j: int| 0 <= j < result.0 ==> (#[trigger] self.nodes@[j]).name@ != name@
            },
            result == NodeRef::none() ==> forall|j: int|
                0 <= j < self.nodes@.len() ==> (#[trigger] self.nodes@[j]).name@ != name@,
    {
        let wanted = name.to_owned();
        let mut i: usize = 0;
        while i < self.nodes.len()
            invariant
                i <= self.nodes@.len() <= 0xffff_ffff,
                wanted@ == name@,
                forall|j: int| 0 <= j < i ==> (#[trigger] self.nodes@[j]).name@ != name@,
            decreases self.nodes@.len() - i,
        {
            if self.nodes[i].name == wanted {
                return NodeRef(i as u32);
            }
            i += 1;
        }
        NodeRef::none()
    }

    pub fn nodes(&self) -> (result: &Vec<NodeState>)
        ensures
            *result == self.nodes,
    {
        &self.nodes
    }

    /// Forgets the nodes; the times stay.
    pub fn clear(&mut self)
        ensures
            final(self).nodes@ == Seq::<NodeState>::empty(),
            final(self).dt == old(self).dt,
            final(self).elapsed == old(self).elapsed,
    {
        self.nodes.clear();
    }
}

/// Something that a script wants done.
#[derive(Debug)]
pub enum Command {
    SetPosition(NodeRef, Vec3),
    Translate(NodeRef, Vec3),
    SetRotation(NodeRef, Quat),
    RotateY(NodeRef, Real),
    SetScale(NodeRef, Vec3),
    SetVisible(NodeRef, bool),
    ApplyImpulse(NodeRef, Vec3),
    PlaySound(NodeRef),
    Despawn(NodeRef),
    Log(String),
    /// A message to the game; `source` is the node whose script sent it.
    Emit { name: String, value: Double, source: NodeRef },
}

impl Command {
    /// The node that the command is about.
    pub open spec fn about(self) -> Option<NodeRef> {
        match self {
            Command::SetPosition(node, _) => Some(node),
            Command::Translate(node, _) => Some(node),
            Command::SetRotation(node, _) => Some(node),
            Command::RotateY(node, _) => Some(node),
            Command::SetScale(node, _) => Some(node),
            Command::SetVisible(node, _) => Some(node),
            Command::ApplyImpulse(node, _) => Some(node),
            Command::PlaySound(node) => Some(node),
            Command::Despawn(node) => Some(node),
            Command::Log(_) => None,
            Command::Emit { .. } => None,
        }
    }

    /// The node that the command is about. Messages are about none.
    pub fn target(&self) -> (result: Option<NodeRef>)
        ensures
            result == self.about(),
    {
        match self {
            Command::SetPosition(node, _) => Some(*node),
            Command::Translate(node, _) => Some(*node),
            Command::SetRotation(node, _) => Some(*node),
            Command::RotateY(node, _) => Some(*node),
            Command::SetScale(node, _) => Some(*node),
            Command::SetVisible(node, _) => Some(*node),
            Command::ApplyImpulse(node, _) => Some(*node),
            Command::PlaySound(node) => Some(*node),
            Command::Despawn(node) => Some(*node),
            Command::Log(_) => None,
            Command::Emit { .. } => None,
        }
    }
}

/// The commands of a frame, up to a limit: a script that never stops asking cannot use up all
/// memory.
#[derive(Debug)]
pub struct CommandBuffer {
    pub commands: Vec<Command>,
    /// How many commands were turned away.
    pub dropped: usize,
    pub limit: usize,
}

impl CommandBuffer {
    pub const DEFAULT_LIMIT: usize = 4096;

    /// Never more commands than allowed.
    pub open spec fn wf(self) -> bool {
        self.commands@.len() <= self.limit
    }

    pub fn new() -> (result: Self)
        ensures
            result.wf(),
            result.commands@ == Seq::<Command>::empty(),
            result.dropped == 0,
            result.limit == Self::DEFAULT_LIMIT,
    {
        CommandBuffer { commands: Vec::new(), dropped: 0, limit: Self::DEFAULT_LIMIT }
    }

    /// A buffer with a limit of its own, which is at least 1.
    /// A buffer that nothing was offered to, made for so many commands; there is always room for
    /// one.
    pub open spec fn unused(self, limit: usize) -> bool {
        &&& self.commands@ == Seq::<Command>::empty()
        &&& self.dropped == 0
        &&& self.limit == if limit == 0 {
            1
        } else {
            limit
        }
    }

    pub fn with_limit(limit: usize) -> (result: Self)
        ensures
            result.wf(),
            result.unused(limit),
    {
        CommandBuffer {
            commands: Vec::new(),
            dropped: 0,
            limit: if limit == 0 {
                1
            } else {
                limit
            },
        }
    }

    /// `before` once a command was offered: it is taken if there is room, and counted if not.
    pub open spec fn pushed(self, before: CommandBuffer, command: Command, taken: bool) -> bool {
        &&& taken == (before.commands@.len() < before.limit)
        &&& self.commands@ == if taken {
            before.commands@.push(command)
        } else {
            before.commands@
        }
        &&& self.dropped == if taken {
            before.dropped as int
        } else {
            before.dropped + 1
        }
        &&& self.limit == before.limit
    }

    /// Takes a command if there is room, and says whether it did.
    pub fn push(&mut self, command: Command) -> (result: bool)
        requires
            old(self).wf(),
            old(self).dropped < usize::MAX,
        ensures
            final(self).wf(),
            final(self).pushed(*old(self), command, result),
    {
        if self.commands.len() >= self.limit {
            self.dropped += 1;
            return false;
        }
        self.commands.push(command);
        true
    }

    pub fn commands(&self) -> (result: &Vec<Command>)
        ensures
            *result == self.commands,
    {
        &self.commands
    }

    pub fn len(&self) -> (result: usize)
        ensures
            result == self.commands@.len(),
    {
        self.commands.len()
    }

    pub fn is_empty(&self) -> (result: bool)
        ensures
            result == (self.commands@.len() == 0),
    {
        self.commands.len() == 0
    }

    pub fn dropped(&self) -> (result: usize)
        ensures
            result == self.dropped,
    {
        self.dropped
    }

    /// Hands all commands out and starts over.
    pub fn take(&mut self) -> (result: Vec<Command>)
        ensures
            result@ == old(self).commands@,
            final(self).wf(),
            final(self).commands@ == Seq::<Command>::empty(),
            final(self).dropped == 0,
            final(self).limit == old(self).limit,
    {
        self.dropped = 0;
        let mut result: Vec<Command> = Vec::new();
        std::mem::swap(&mut result, &mut self.commands);
        result
    }

    /// Forgets all commands and starts over.
    pub fn clear(&mut self)
        ensures
            final(self).wf(),
            final(self).commands@ == Seq::<Command>::empty(),
            final(self).dropped == 0,
            final(self).limit == old(self).limit,
    {
        self.commands.clear();
        self.dropped = 0;
    }
}

/// A series of commands was offered to a buffer, one after the other; `taken` says of each whether
/// it was taken.
pub open spec fn all_pushed(
    buffers: Seq<CommandBuffer>,
    commands: Seq<Command>,
    taken: Seq<bool>,
) -> bool {
    &&& buffers.len() == commands.len() + 1
    &&& taken.len() == commands.len()
    &&& forall|i: int|
        0 <= i < commands.len() ==> buffers[i + 1].pushed(
            buffers[i],
            #[trigger] commands[i],
            taken[i],
        )
}

/// However many commands a script sends, a buffer that was made for so many keeps the first ones, up
/// to that and in their order, and counts the others; each push says which it was.
pub proof fn lemma_runaway_script_is_capped(
    buffers: Seq<CommandBuffer>,
    commands: Seq<Command>,
    taken: Seq<bool>,
    asked: usize,
)
    requires
        all_pushed(buffers, commands, taken),
        buffers[0].unused(asked),
    ensures
        ({
            let limit = if asked == 0 {
                1
            } else {
                asked as int
            };
            let kept = if commands.len() < limit {
                commands.len() as int
            } else {
                limit
            };
            &&& buffers.last().commands@ == commands.take(kept)
            &&& buffers.last().dropped == commands.len() - kept
            &&& forall|i: int| 0 <= i < taken.len() ==> #[trigger] taken[i] == (i < limit)
        }),
    decreases commands.len(),
{
    let limit = buffers[0].limit as int;
    if commands.len() == 0 {
        assert(buffers.last().commands@ =~= commands.take(0));
    } else {
        let n = commands.len() - 1;
        let front = commands.drop_last();
        assert forall|i: int| 0 <= i < front.len() implies buffers.drop_last()[i + 1].pushed(
            buffers.drop_last()[i],
            #[trigger] front[i],
            taken.drop_last()[i],
        ) by {
            assert(front[i] == commands[i]);
        }
        lemma_runaway_script_is_capped(buffers.drop_last(), front, taken.drop_last(), asked);
        assert(buffers[n + 1].pushed(buffers[n], commands[n], taken[n]));
        lemma_limit_stays(buffers, commands, taken, n);
        assert forall|i: int| 0 <= i < taken.len() implies #[trigger] taken[i] == (i < limit) by {
            if i < n {
                assert(taken.drop_last()[i] == (i < limit));
            }
        }
        if n < limit {
            assert(front.take(n).push(commands[n]) =~= commands.take(n + 1));
        } else {
            assert(front.take(limit) =~= commands.take(limit));
        }
    }
}

proof fn lemma_limit_stays(
    buffers: Seq<CommandBuffer>,
    commands: Seq<Command>,
    taken: Seq<bool>,
    n: int,
)
    requires
        all_pushed(buffers, commands, taken),
        0 <= n <= commands.len(),
    ensures
        buffers[n].limit == buffers[0].limit,
    decreases n,
{
    if n > 0 {
        lemma_limit_stays(buffers, commands, taken, n - 1);
        assert(buffers[n - 1 + 1].pushed(buffers[n - 1], commands[n - 1], taken[n - 1]));
    }
}

/// A command is about the node that it was given, whatever else it says; messages are about none.
pub proof fn lemma_command_is_about_its_node(
    node: NodeRef,
    v: Vec3,
    q: Quat,
    r: Real,
    flag: bool,
    text: String,
    value: Double,
)
    ensures
        Command::SetPosition(node, v).about() == Some(node),
        Command::Translate(node, v).about() == Some(node),
        Command::SetRotation(node, q).about() == Some(node),
        Command::RotateY(node, r).about() == Some(node),
        Command::SetScale(node, v).about() == Some(node),
        Command::SetVisible(node, flag).about() == Some(node),
        Command::ApplyImpulse(node, v).about() == Some(node),
        Command::PlaySound(node).about() == Some(node),
        Command::Despawn(node).about() == Some(node),
        Command::Log(text).about() is None,
        (Command::Emit { name: text, value, source: node }).about() is None,
{
}

} // verus!
