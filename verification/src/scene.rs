//! The scene: an aggregate of hittable objects and the material arena they
//! index into.
//!
//! The aggregate is itself hittable: its `hit` folds over the children and
//! keeps the record with the smallest `t`, so object order never changes
//! the result; `lemma_scene_nearest` states exactly that.

use vstd::prelude::*;

use crate::color::Color;
use crate::geometry::ray_wf;
use crate::geometry::sphere_hit_spec;
use crate::geometry::sphere_wf;
use crate::geometry::HitRecord;
use crate::geometry::Ray;
use crate::geometry::Sphere;
use crate::materials::material_wf;
use crate::materials::Dielectric;
use crate::materials::Lambertian;
use crate::materials::Material;
use crate::materials::Metal;
use crate::maths::vec_in;
use crate::maths::Interval;
use crate::maths::Point;
use crate::maths::Vec3;

verus! {

/// The fold the aggregate `hit` computes over the first `n` objects: keep
/// the record with the smaller `t`, a later object winning ties.
pub open spec fn list_hit_spec(spheres: Seq<Sphere>, ray: Ray, itv: Interval, n: int) -> Option<
    HitRecord,
>
    decreases n,
{
    if n <= 0 {
        None
    } else {
        let prev = list_hit_spec(spheres, ray, itv, n - 1);
        let cur = sphere_hit_spec(spheres[n - 1], ray, itv);
        match (prev, cur) {
            (Some(p), Some(c)) => if p.t < c.t {
                Some(p)
            } else {
                Some(c)
            },
            (Some(p), None) => Some(p),
            (None, _) => cur,
        }
    }
}

/// The default scene, object for object: a large diffuse ground sphere, a
/// diffuse center sphere, a glass sphere with a hollow bubble inside it,
/// and a fully fuzzed metal sphere.
pub open spec fn is_default_scene(w: HittableList) -> bool {
    &&& w.wf()
    &&& w.objects_view().len() == 5
    &&& w.materials_view().len() == 5
    &&& w.materials_view()[0] == Material::Lambertian(
        Lambertian { albedo: Vec3 { x: 52429i64, y: 52429i64, z: 0i64 } },
    )
    &&& w.materials_view()[1] == Material::Lambertian(
        Lambertian { albedo: Vec3 { x: 6554i64, y: 13107i64, z: 32768i64 } },
    )
    &&& w.materials_view()[2] == Material::Dielectric(Dielectric { refraction_index: 98304i64 })
    &&& w.materials_view()[3] == Material::Dielectric(Dielectric { refraction_index: 43690i64 })
    &&& w.materials_view()[4] == Material::Metal(
        Metal { albedo: Vec3 { x: 52429i64, y: 39322i64, z: 13107i64 }, fuzz: 65536i64 },
    )
    &&& w.objects_view()[0] == (Sphere {
        center: Vec3 { x: 0i64, y: -6586368i64, z: -65536i64 },
        radius: 6553600i64,
        material: 0usize,
    })
    &&& w.objects_view()[1] == (Sphere {
        center: Vec3 { x: 0i64, y: 0i64, z: -78643i64 },
        radius: 32768i64,
        material: 1usize,
    })
    &&& w.objects_view()[2] == (Sphere {
        center: Vec3 { x: -65536i64, y: 0i64, z: -65536i64 },
        radius: 32768i64,
        material: 2usize,
    })
    &&& w.objects_view()[3] == (Sphere {
        center: Vec3 { x: -65536i64, y: 0i64, z: -65536i64 },
        radius: 26214i64,
        material: 3usize,
    })
    &&& w.objects_view()[4] == (Sphere {
        center: Vec3 { x: 65536i64, y: 0i64, z: -65536i64 },
        radius: 32768i64,
        material: 4usize,
    })
}

pub struct HittableList {
    objects: Vec<Sphere>,
    materials: Vec<Material>,
}

impl HittableList {
    /// The objects, for specification purposes.
    pub closed spec fn objects_view(&self) -> Seq<Sphere> {
        self.objects@
    }

    /// The material arena, for specification purposes.
    pub closed spec fn materials_view(&self) -> Seq<Material> {
        self.materials@
    }

    /// Every object is well-formed geometry pointing at a well-formed
    /// material in the arena.
    pub open spec fn wf(&self) -> bool {
        &&& forall|i: int|
            0 <= i < self.objects_view().len() ==> sphere_wf(#[trigger] self.objects_view()[i])
                && self.objects_view()[i].material < self.materials_view().len()
        &&& forall|i: int|
            0 <= i < self.materials_view().len() ==> material_wf(#[trigger] self.materials_view()[i])
    }

    pub fn new() -> (r: Self)
        ensures
            r.objects_view().len() == 0,
            r.materials_view().len() == 0,
            r.wf(),
    {
        Self { objects: Vec::new(), materials: Vec::new() }
    }

    /// The default five-sphere scene.
    pub fn default() -> (r: Self)
        ensures
            is_default_scene(r),
            r.wf(),
            r.objects_view().len() == 5,
    {
        let mut world = Self::new();

        let material_ground: usize = world.add_material(
            Material::Lambertian(Lambertian::new(Color::new(52429, 52429, 0))),
        );
        let material_center: usize = world.add_material(
            Material::Lambertian(Lambertian::new(Color::new(6554, 13107, 32768))),
        );
        let material_left: usize = world.add_material(
            Material::Dielectric(Dielectric::new(98304)),
        );
        let material_bubble: usize = world.add_material(
            Material::Dielectric(Dielectric::new(43690)),
        );
        let material_right: usize = world.add_material(
            Material::Metal(Metal::new(Color::new(52429, 39322, 13107), 65536)),
        );

        world.add(Sphere::new(Point::new(0, -6586368, -65536), 6553600, material_ground));
        world.add(Sphere::new(Point::new(0, 0, -78643), 32768, material_center));
        world.add(Sphere::new(Point::new(-65536, 0, -65536), 32768, material_left));
        world.add(Sphere::new(Point::new(-65536, 0, -65536), 26214, material_bubble));
        world.add(Sphere::new(Point::new(65536, 0, -65536), 32768, material_right));

        world
    }

    /// Add a material to the arena and return its index.
    pub fn add_material(&mut self, material: Material) -> (r: usize)
        requires
            material_wf(material),
        ensures
            final(self).materials_view() == old(self).materials_view().push(material),
            final(self).objects_view() == old(self).objects_view(),
            r == old(self).materials_view().len(),
            old(self).wf() ==> final(self).wf(),
    {
        let idx: usize = self.materials.len();
        self.materials.push(material);
        idx
    }

    /// Add an object; its material index must point into the arena.
    pub fn add(&mut self, object: Sphere)
        requires
            sphere_wf(object),
            object.material < old(self).materials_view().len(),
        ensures
            final(self).objects_view() == old(self).objects_view().push(object),
            final(self).materials_view() == old(self).materials_view(),
            old(self).wf() ==> final(self).wf(),
    {
        self.objects.push(object);
    }

    /// Remove every object; the material arena is kept.
    pub fn clear(&mut self)
        ensures
            final(self).objects_view().len() == 0,
            final(self).materials_view() == old(self).materials_view(),
            old(self).wf() ==> final(self).wf(),
    {
        self.objects.clear();
    }

    pub fn object_count(&self) -> (r: usize)
        ensures
            r == self.objects_view().len(),
    {
        self.objects.len()
    }

    /// The material an index points at.
    pub fn material_at(&self, idx: usize) -> (r: Material)
        requires
            self.wf(),
            idx < self.materials_view().len(),
        ensures
            r == self.materials_view()[idx as int],
            material_wf(r),
    {
        self.materials[idx]
    }

    /// The nearest hit among all objects, or none if nothing is hit.
    pub fn hit(&self, ray: &Ray, interval: &Interval) -> (r: Option<HitRecord>)
        requires
            self.wf(),
            ray_wf(*ray),
        ensures
            r == list_hit_spec(
                self.objects_view(),
                *ray,
                *interval,
                self.objects_view().len() as int,
            ),
            r matches Some(h) ==> vec_in(h.normal, 65536) && h.material
                < self.materials_view().len(),
    {
        let mut best: Option<HitRecord> = None;
        let mut i: usize = 0;
        let n: usize = self.objects.len();
        while i < n
            invariant
                0 <= i <= n,
                n == self.objects_view().len(),
                self.wf(),
                ray_wf(*ray),
                best == list_hit_spec(self.objects_view(), *ray, *interval, i as int),
                best matches Some(h) ==> vec_in(h.normal, 65536) && h.material
                    < self.materials_view().len(),
            decreases n - i,
        {
            let candidate: Option<HitRecord> = self.objects[i].hit(ray, interval);
            match candidate {
                Some(rec) => {
                    best = match best {
                        Some(b) => if b.t < rec.t {
                            Some(b)
                        } else {
                            Some(rec)
                        },
                        None => Some(rec),
                    };
                },
                None => {},
            }
            i = i + 1;
        }
        best
    }
}

/// The aggregate is order-independent in its result: it reports no hit
/// exactly when no child hits, and otherwise one of the children's records
/// whose `t` is the minimum over all children that hit.
pub proof fn lemma_scene_nearest(spheres: Seq<Sphere>, ray: Ray, itv: Interval, n: int)
    requires
        0 <= n,
    ensures
        (list_hit_spec(spheres, ray, itv, n) is None) <==> (forall|i: int|
            0 <= i < n ==> #[trigger] sphere_hit_spec(spheres[i], ray, itv) is None),
        list_hit_spec(spheres, ray, itv, n) matches Some(h) ==> (exists|i: int|
            0 <= i < n && #[trigger] sphere_hit_spec(spheres[i], ray, itv) == Some(h)) && (forall|
            i: int,
        |
            0 <= i < n && #[trigger] sphere_hit_spec(spheres[i], ray, itv) is Some ==> h.t
                <= sphere_hit_spec(spheres[i], ray, itv)->0.t),
    decreases n,
{
    if n > 0 {
        lemma_scene_nearest(spheres, ray, itv, n - 1);
    }
}

} // verus!
