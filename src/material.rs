//! Lighting materials and the registry that names them.
use vstd::prelude::*;
use crate::error::ScriptError;
use crate::names::NameMap;
use crate::num::Num;

verus! {

/// One reflection coefficient per colour channel.
#[derive(Clone, Copy, Debug, PartialEq, Eq, Structural)]
pub struct Rgb {
    pub red: Num,
    pub green: Num,
    pub blue: Num,
}

/// The ambient, diffuse and specular reflection of a surface.
#[derive(Clone, Copy, Debug, PartialEq, Eq, Structural)]
pub struct Material {
    pub ambient: Rgb,
    pub diffuse: Rgb,
    pub specular: Rgb,
}

/// The coefficient used by every channel of the default material's
/// ambient reflection: one tenth.
pub const DEFAULT_AMBIENT_TENTHS: i64 = 1;

/// The coefficient used by every channel of the default material's diffuse
/// and specular reflection: five tenths.
pub const DEFAULT_DIFFUSE_TENTHS: i64 = 5;

/// A grey with the same coefficient `tenths / 10` on every channel.
pub open spec fn grey_spec(tenths: i64) -> Rgb {
    Rgb {
        red: Num { numer: tenths, denom: 10 },
        green: Num { numer: tenths, denom: 10 },
        blue: Num { numer: tenths, denom: 10 },
    }
}

fn grey(tenths: i64) -> (r: Rgb)
    ensures
        r == grey_spec(tenths),
{
    let c = Num::new(tenths, 10);
    Rgb { red: c, green: c, blue: c }
}

/// The material of geometry that names none.
pub open spec fn default_material_spec() -> Material {
    Material {
        ambient: grey_spec(DEFAULT_AMBIENT_TENTHS),
        diffuse: grey_spec(DEFAULT_DIFFUSE_TENTHS),
        specular: grey_spec(DEFAULT_DIFFUSE_TENTHS),
    }
}

impl Material {
    /// A material from its three reflections.
    pub fn new(ambient: Rgb, diffuse: Rgb, specular: Rgb) -> (r: Material)
        ensures
            r == (Material { ambient, diffuse, specular }),
    {
        Material { ambient, diffuse, specular }
    }

    /// A material from the nine coefficients in the order a `constants`
    /// directive lists them: for red, then green, then blue, the ambient,
    /// diffuse and specular coefficient.
    pub fn from_constants(
        ambient_red: Num,
        diffuse_red: Num,
        specular_red: Num,
        ambient_green: Num,
        diffuse_green: Num,
        specular_green: Num,
        ambient_blue: Num,
        diffuse_blue: Num,
        specular_blue: Num,
    ) -> (r: Material)
        ensures
            r.ambient == (Rgb { red: ambient_red, green: ambient_green, blue: ambient_blue }),
            r.diffuse == (Rgb { red: diffuse_red, green: diffuse_green, blue: diffuse_blue }),
            r.specular == (Rgb { red: specular_red, green: specular_green, blue: specular_blue }),
    {
        Material {
            ambient: Rgb { red: ambient_red, green: ambient_green, blue: ambient_blue },
            diffuse: Rgb { red: diffuse_red, green: diffuse_green, blue: diffuse_blue },
            specular: Rgb { red: specular_red, green: specular_green, blue: specular_blue },
        }
    }

    /// The material of geometry that names none.
    pub fn default_material() -> (r: Material)
        ensures
            r == default_material_spec(),
    {
        Material {
            ambient: grey(DEFAULT_AMBIENT_TENTHS),
            diffuse: grey(DEFAULT_DIFFUSE_TENTHS),
            specular: grey(DEFAULT_DIFFUSE_TENTHS),
        }
    }
}

/// The material that an optional name selects from the registry's
/// bindings: the default one without a name, the bound one with a defined
/// name, `UnknownMaterial` otherwise.
pub open spec fn resolve_spec(
    bindings: Map<Seq<char>, Material>,
    name: Option<Seq<char>>,
) -> Result<Material, ScriptError> {
    match name {
        None => Ok(default_material_spec()),
        Some(n) => if bindings.contains_key(n) {
            Ok(bindings[n])
        } else {
            Err(ScriptError::UnknownMaterial)
        },
    }
}

/// The view of an optional name.
pub open spec fn name_view(name: &Option<String>) -> Option<Seq<char>> {
    match name {
        Some(s) => Some(s@),
        None => None,
    }
}

/// The materials defined so far.
pub struct Registry {
    table: NameMap<Material>,
}

impl Registry {
    /// The material bound to each defined name.
    pub closed spec fn bindings(&self) -> Map<Seq<char>, Material> {
        self.table.bindings()
    }

    /// A registry with no material.
    pub fn new() -> (r: Registry)
        ensures
            r.bindings() == Map::<Seq<char>, Material>::empty(),
    {
        Registry { table: NameMap::new() }
    }

    /// Defines `name`, or redefines it with new coefficients.
    pub fn define(&mut self, name: &String, m: Material)
        ensures
            final(self).bindings() == old(self).bindings().insert(name@, m),
    {
        self.table.define(name, m);
    }

    /// The material that `name` selects (see `resolve_spec`).
    pub fn resolve(&self, name: &Option<String>) -> (r: Result<Material, ScriptError>)
        ensures
            r == resolve_spec(self.bindings(), name_view(name)),
    {
        match name {
            None => Ok(Material::default_material()),
            Some(n) => match self.table.get(n) {
                Some(m) => Ok(m),
                None => Err(ScriptError::UnknownMaterial),
            },
        }
    }
}

/// A redefined material overrides the earlier coefficients for every later
/// lookup of its name, and leaves the other names as they were.
pub proof fn lemma_redefinition_overrides(
    bindings: Map<Seq<char>, Material>,
    name: Seq<char>,
    m: Material,
    other: Seq<char>,
)
    requires
        other != name,
    ensures
        resolve_spec(bindings.insert(name, m), Some(name)) == Ok::<Material, ScriptError>(m),
        resolve_spec(bindings.insert(name, m), Some(other)) == resolve_spec(bindings, Some(other)),
{
}

} // verus!
