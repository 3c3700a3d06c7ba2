//! The world: the objects of a simulation, the behaviours that act on all
//! of them, and the parameters of a step.
use vstd::prelude::*;
use crate::arithmetic::Arithmetic;
use crate::behaviors::ParticleBehaviour2D;
use crate::constraints::ParticleConstraint2D;
use crate::objects::step::object_steps;
use crate::objects::VerletObject2D;
use crate::scalar::{Scalar, ONE_BITS};

verus! {

/// The number of passes over the springs that a world makes per step when
/// it is not told otherwise.
pub const DEFAULT_ITERATIONS: u32 = 50;

/// A world. It computes with the arithmetic `M`, applies behaviours of the
/// kind `B` to every particle of every object, and its objects carry
/// constraints of the kind `C`.
pub struct VerletPhysics2D<M: Arithmetic, B: ParticleBehaviour2D<M>, C: ParticleConstraint2D> {
    math: M,
    objects: Vec<VerletObject2D<C>>,
    behaviors: Vec<B>,
    timestep: Scalar,
    num_iterations: u32,
    drag: Scalar,
}

impl<M: Arithmetic, B: ParticleBehaviour2D<M>, C: ParticleConstraint2D> VerletPhysics2D<M, B, C> {
    /// The arithmetic the world computes with.
    pub closed spec fn math(&self) -> &M {
        &self.math
    }

    /// The objects, in the order in which they were added.
    pub closed spec fn objects(&self) -> Seq<VerletObject2D<C>> {
        self.objects@
    }

    /// The behaviours, in the order in which they were registered.
    pub closed spec fn behaviors(&self) -> Seq<B> {
        self.behaviors@
    }

    /// The length of a step.
    pub closed spec fn timestep(&self) -> Scalar {
        self.timestep
    }

    /// The number of passes over the springs per step.
    pub closed spec fn iterations(&self) -> u32 {
        self.num_iterations
    }

    /// How much of each particle's motion a step takes away.
    pub closed spec fn drag(&self) -> Scalar {
        self.drag
    }

    /// Every object of the world is in order.
    pub open spec fn wf(&self) -> bool {
        forall|i: int| 0 <= i < self.objects().len() ==> (#[trigger] self.objects()[i]).wf()
    }

    /// Whether `after` is the world `self` with its parameters, its
    /// arithmetic and its behaviours untouched.
    pub open spec fn same_setup(&self, after: &Self) -> bool {
        &&& after.math() == self.math()
        &&& after.behaviors() == self.behaviors()
        &&& after.timestep() == self.timestep()
        &&& after.iterations() == self.iterations()
        &&& after.drag() == self.drag()
    }

    /// An empty world with a timestep of one, fifty passes over the springs
    /// per step, and no drag.
    pub fn new(math: M) -> (r: Self)
        ensures
            r.wf(),
            *r.math() == math,
            r.objects().len() == 0,
            r.behaviors().len() == 0,
            r.timestep().bits == ONE_BITS,
            r.iterations() == DEFAULT_ITERATIONS,
            r.drag().bits == 0,
    {
        Self::new_with(math, Scalar::one(), DEFAULT_ITERATIONS, Scalar::zero(), None)
    }

    /// An empty world with the given parameters. Where `gravity` is given,
    /// it is registered as the first behaviour, configured for `timestep`.
    pub fn new_with(
        math: M,
        timestep: Scalar,
        num_iterations: u32,
        drag: Scalar,
        gravity: Option<B>,
    ) -> (r: Self)
        ensures
            r.wf(),
            *r.math() == math,
            r.objects().len() == 0,
            r.timestep() == timestep,
            r.iterations() == num_iterations,
            r.drag() == drag,
            match gravity {
                Some(g) => r.behaviors().len() == 1 && g.configures(
                    &math,
                    timestep,
                    r.behaviors()[0],
                ),
                None => r.behaviors().len() == 0,
            },
    {
        let mut behaviors = Vec::new();
        match gravity {
            Some(g) => {
                let mut g = g;
                g.configure(&math, timestep);
                behaviors.push(g);
            },
            None => {},
        }
        VerletPhysics2D { math, timestep, num_iterations, drag, objects: Vec::new(), behaviors }
    }

    /// Sets how much of each particle's motion a step takes away.
    pub fn set_drag(&mut self, drag: Scalar)
        ensures
            final(self).drag() == drag,
            final(self).math() == old(self).math(),
            final(self).objects() == old(self).objects(),
            final(self).behaviors() == old(self).behaviors(),
            final(self).timestep() == old(self).timestep(),
            final(self).iterations() == old(self).iterations(),
    {
        self.drag = drag;
    }

    /// Registers a behaviour: configures it for the world's timestep and
    /// puts it after the behaviours the world has.
    pub fn add_behavior(&mut self, b: B)
        ensures
            final(self).behaviors().len() == old(self).behaviors().len() + 1,
            final(self).behaviors().drop_last() == old(self).behaviors(),
            b.configures(old(self).math(), old(self).timestep(), final(self).behaviors().last()),
            final(self).math() == old(self).math(),
            final(self).objects() == old(self).objects(),
            final(self).timestep() == old(self).timestep(),
            final(self).iterations() == old(self).iterations(),
            final(self).drag() == old(self).drag(),
    {
        let mut b = b;
        b.configure(&self.math, self.timestep);
        self.behaviors.push(b);
        assert(self.behaviors@.drop_last() =~= old(self).behaviors@);
    }

    /// Adds an object after the objects the world has.
    pub fn add_object(&mut self, object: VerletObject2D<C>)
        requires
            old(self).wf(),
            object.wf(),
        ensures
            final(self).wf(),
            final(self).objects() == old(self).objects().push(object),
            old(self).same_setup(final(self)),
    {
        self.objects.push(object);
        proof {
            assert forall|i: int| 0 <= i < self.objects().len() implies (
            #[trigger] self.objects()[i]).wf() by {
                if i < old(self).objects().len() {
                    assert(self.objects()[i] == old(self).objects()[i]);
                }
            }
        }
    }

    /// The objects, in the order in which they were added.
    pub fn get_objects(&self) -> (r: &Vec<VerletObject2D<C>>)
        ensures
            r@ == self.objects(),
    {
        &self.objects
    }

    /// The behaviours, in the order in which they were registered.
    pub fn get_behaviors(&self) -> (r: &Vec<B>)
        ensures
            r@ == self.behaviors(),
    {
        &self.behaviors
    }

    /// Advances every object by one step, with the world's behaviours,
    /// passes and drag. The objects stay in their order, and each keeps its
    /// tag and its particles' keys.
    pub fn update(&mut self)
        requires
            old(self).wf(),
        ensures
            final(self).wf(),
            old(self).same_setup(final(self)),
            final(self).objects().len() == old(self).objects().len(),
            forall|i: int|
                0 <= i < old(self).objects().len() ==> {
                    &&& object_steps(
                        old(self).math(),
                        old(self).behaviors(),
                        old(self).iterations() as nat,
                        old(self).drag(),
                        old(self).objects()[i].state(),
                        (#[trigger] final(self).objects()[i]).state(),
                    )
                    &&& final(self).objects()[i].order() == old(self).objects()[i].order()
                    &&& final(self).objects()[i].tag() == old(self).objects()[i].tag()
                },
    {
        let n = self.objects.len();
        for i in 0..n
            invariant
                n == old(self).objects@.len(),
                self.objects@.len() == n,
                self.math == old(self).math,
                self.behaviors == old(self).behaviors,
                self.timestep == old(self).timestep,
                self.num_iterations == old(self).num_iterations,
                self.drag == old(self).drag,
                forall|j: int| 0 <= j < n ==> (#[trigger] self.objects@[j]).wf(),
                forall|j: int| i <= j < n ==> self.objects@[j] == old(self).objects@[j],
                forall|j: int|
                    0 <= j < i ==> {
                        &&& object_steps(
                            &self.math,
                            self.behaviors@,
                            self.num_iterations as nat,
                            self.drag,
                            old(self).objects@[j].state(),
                            (#[trigger] self.objects@[j]).state(),
                        )
                        &&& self.objects@[j].order() == old(self).objects@[j].order()
                        &&& self.objects@[j].tag() == old(self).objects@[j].tag()
                    },
        {
            self.objects[i].update(&self.math, self.num_iterations, self.drag, &self.behaviors);
        }
    }

    /// Empties the world: every object and every behaviour leaves. The
    /// timestep, the passes per step and the drag stay as they are.
    pub fn clear(&mut self)
        ensures
            final(self).wf(),
            final(self).objects().len() == 0,
            final(self).behaviors().len() == 0,
            final(self).math() == old(self).math(),
            final(self).timestep() == old(self).timestep(),
            final(self).iterations() == old(self).iterations(),
            final(self).drag() == old(self).drag(),
    {
        self.objects.clear();
        self.behaviors.clear();
    }
}

} // verus!
