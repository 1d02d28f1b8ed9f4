//! Scenes: ordered lists of surfaces, and the nearest hit among them.
use crate::ray::{hit_in_range, traceable, window_ok, IntersectionResult, Ray, RayIntersect};
use crate::scalar::Scalar;
use crate::vector::Vector;
use crate::sphere::{SceneError, Sphere};
use vstd::prelude::*;
use vstd::string::StringSliceAdditionalSpecFns;

verus! {

/// The kinds of surface a scene can hold.
#[derive(Clone, Copy, PartialEq, Eq, Debug, Structural)]
pub enum Object {
    Sphere(Sphere),
}

impl RayIntersect for Object {
    open spec fn shape_ok(&self) -> bool {
        match self {
            Object::Sphere(s) => s.shape_ok(),
        }
    }

    open spec fn hit_spec(&self, ray: Ray, bounds: (Scalar, Scalar)) -> Option<IntersectionResult> {
        match self {
            Object::Sphere(s) => s.hit_spec(ray, bounds),
        }
    }

    fn intersects(&self, ray: &Ray, bounds: (Scalar, Scalar)) -> (r: Option<IntersectionResult>) {
        match self {
            Object::Sphere(s) => ray.intersects(s, bounds),
        }
    }
}

/// The bytes of the one kind of surface a scene description can name: `sphere`.
pub open spec fn sphere_kind() -> Seq<u8> {
    seq![115u8, 112u8, 104u8, 101u8, 114u8, 101u8]
}

impl Object {
    /// The surface that one entry of a scene description names: its kind, center and
    /// radius. Only `"sphere"` is supported; the sphere is checked as `Sphere::new` does.
    pub fn from_description(kind: &str, center: Vector, radius: Scalar) -> (r: Result<
        Object,
        SceneError,
    >)
        ensures
            kind.spec_bytes() != sphere_kind() ==> r == Err::<Object, SceneError>(
                SceneError::UnsupportedKind,
            ),
            kind.spec_bytes() == sphere_kind() ==> match r {
                Ok(o) => o == Object::Sphere(Sphere { center, radius }) && o.shape_ok(),
                Err(e) => (e == SceneError::DegenerateSphere && radius.val() <= 0) || (e
                    == SceneError::OutOfRange && radius.val() > 0 && !(Sphere {
                    center,
                    radius,
                }).wf()),
            },
            kind.spec_bytes() == sphere_kind() && (Sphere { center, radius }).wf() ==> r is Ok,
    {
        let b = kind.as_bytes();
        if b.len() != 6 || b[0] != 115 || b[1] != 112 || b[2] != 104 || b[3] != 101 || b[4] != 114
            || b[5] != 101 {
            proof {
                if b@.len() == 6 {
                    assert(b@ != sphere_kind());
                }
            }
            return Err(SceneError::UnsupportedKind);
        }
        proof {
            assert(b@ =~= sphere_kind());
        }
        match Sphere::new(center, radius) {
            Ok(s) => Ok(Object::Sphere(s)),
            Err(e) => Err(e),
        }
    }
}

pub struct Scene {
    pub objects: Vec<Object>,
}

/// Of the best hit so far and a new one, the one kept: the new one only where it is
/// strictly nearer, so that among equal parameters the first surface wins.
pub open spec fn closer(best: Option<IntersectionResult>, h: Option<IntersectionResult>) -> Option<
    IntersectionResult,
> {
    match h {
        None => best,
        Some(hh) => match best {
            None => h,
            Some(bb) => if hh.t.val() < bb.t.val() {
                h
            } else {
                best
            },
        },
    }
}

/// The nearest hit among `objs`, the first one listed among equals.
pub open spec fn nearest_in(objs: Seq<Object>, ray: Ray, bounds: (Scalar, Scalar)) -> Option<
    IntersectionResult,
>
    decreases objs.len(),
{
    if objs.len() == 0 {
        None
    } else {
        closer(nearest_in(objs.drop_last(), ray, bounds), objs.last().hit_spec(ray, bounds))
    }
}

/// What the nearest hit is, said directly: none exactly when no surface is hit; otherwise
/// the hit of one of the surfaces, and no surface is hit at a smaller parameter.
pub proof fn lemma_nearest_in(objs: Seq<Object>, ray: Ray, bounds: (Scalar, Scalar))
    ensures
        nearest_in(objs, ray, bounds) is None <==> (forall|i: int|
            0 <= i < objs.len() ==> objs[i].hit_spec(ray, bounds) is None),
        nearest_in(objs, ray, bounds) is Some ==> (exists|i: int|
            0 <= i < objs.len() && objs[i].hit_spec(ray, bounds) == nearest_in(objs, ray, bounds)),
        nearest_in(objs, ray, bounds) is Some ==> (forall|i: int|
            0 <= i < objs.len() && (#[trigger] objs[i].hit_spec(ray, bounds)) is Some ==> nearest_in(
                objs,
                ray,
                bounds,
            )->Some_0.t.val() <= objs[i].hit_spec(ray, bounds)->Some_0.t.val()),
    decreases objs.len(),
{
    if objs.len() > 0 {
        let init = objs.drop_last();
        lemma_nearest_in(init, ray, bounds);
        let n = objs.len() - 1;
        assert forall|i: int| 0 <= i < init.len() implies #[trigger] init[i] == objs[i] by {}
        assert(objs[n] == objs.last());
        let prev = nearest_in(init, ray, bounds);
        let h = objs[n].hit_spec(ray, bounds);
        let r = nearest_in(objs, ray, bounds);
        if r is None {
            assert forall|i: int| 0 <= i < objs.len() implies objs[i].hit_spec(ray, bounds) is None by {
                if i < n {
                    assert(init[i] == objs[i]);
                }
            }
        }
        if forall|i: int| 0 <= i < objs.len() ==> objs[i].hit_spec(ray, bounds) is None {
            assert(h is None);
            assert forall|i: int| 0 <= i < init.len() implies init[i].hit_spec(ray, bounds) is None by {
                assert(init[i] == objs[i]);
            }
        }
        if prev is Some {
            let i = choose|i: int|
                0 <= i < init.len() && init[i].hit_spec(ray, bounds) == prev;
            assert(objs[i] == init[i]);
        }
        if r is Some {
            assert forall|i: int|
                0 <= i < objs.len() && (#[trigger] objs[i].hit_spec(ray, bounds)) is Some implies r->Some_0.t.val()
                <= objs[i].hit_spec(ray, bounds)->Some_0.t.val() by {
                if i < n {
                    assert(init[i] == objs[i]);
                    assert(init[i].hit_spec(ray, bounds) is Some);
                }
            }
        }
    }
}

impl Scene {
    /// Every surface is within the range the intersection code is proved for.
    pub open spec fn wf(&self) -> bool {
        forall|i: int| 0 <= i < self.objects@.len() ==> (#[trigger] self.objects@[i]).shape_ok()
    }

    /// Whether every surface is within the range the intersection code is proved for.
    pub fn is_valid(&self) -> (r: bool)
        ensures
            r == self.wf(),
    {
        let mut i: usize = 0;
        while i < self.objects.len()
            invariant
                i <= self.objects@.len(),
                forall|j: int| 0 <= j < i ==> (#[trigger] self.objects@[j]).shape_ok(),
            decreases self.objects@.len() - i,
        {
            let ok = match &self.objects[i] {
                Object::Sphere(s) => s.is_valid(),
            };
            if !ok {
                return false;
            }
            i = i + 1;
        }
        true
    }

    /// The nearest hit of `ray` among the surfaces, with a parameter strictly inside
    /// `bounds`; among equal parameters, the surface listed first.
    pub fn nearest_hit(&self, ray: &Ray, bounds: (Scalar, Scalar)) -> (r: Option<IntersectionResult>)
        requires
            self.wf(),
            traceable(*ray),
            window_ok(bounds),
        ensures
            r == nearest_in(self.objects@, *ray, bounds),
            r is Some ==> hit_in_range(r->Some_0),
            r is None <==> (forall|i: int|
                0 <= i < self.objects@.len() ==> self.objects@[i].hit_spec(*ray, bounds) is None),
            r is Some ==> (forall|i: int|
                0 <= i < self.objects@.len() && (#[trigger] self.objects@[i].hit_spec(*ray, bounds))
                    is Some ==> r->Some_0.t.val() <= self.objects@[i].hit_spec(
                    *ray,
                    bounds,
                )->Some_0.t.val()),
    {
        let mut best: Option<IntersectionResult> = None;
        let mut i: usize = 0;
        while i < self.objects.len()
            invariant
                i <= self.objects@.len(),
                self.wf(),
                traceable(*ray),
                window_ok(bounds),
                best == nearest_in(self.objects@.take(i as int), *ray, bounds),
                best is Some ==> hit_in_range(best->Some_0),
            decreases self.objects@.len() - i,
        {
            let h = self.objects[i].intersects(ray, bounds);
            proof {
                let next = self.objects@.take(i + 1);
                assert(next.drop_last() =~= self.objects@.take(i as int));
                assert(next.last() == self.objects@[i as int]);
            }
            best = match h {
                None => best,
                Some(hh) => match best {
                    None => h,
                    Some(bb) => if hh.t.raw < bb.t.raw {
                        h
                    } else {
                        best
                    },
                },
            };
            i = i + 1;
        }
        proof {
            assert(self.objects@.take(i as int) =~= self.objects@);
            lemma_nearest_in(self.objects@, *ray, bounds);
        }
        best
    }
}

} // verus!
