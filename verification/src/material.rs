use vstd::prelude::*;

verus! {

/// A layered surface description: up to five texture channels, each of which may be
/// absent. `T` is the texture type; the material never looks inside a texture.
pub struct Material<T> {
    pub texture_albedo: Option<T>,
    pub texture_specular: Option<T>,
    pub texture_normal: Option<T>,
    pub texture_emission_color: Option<T>,
    pub texture_emission_intensity: Option<T>,
}

/// What has to be evaluated to shade one hit.
#[derive(Clone, Copy, Debug, PartialEq, Eq, Structural)]
pub enum ShadePlan {
    /// The surface is a light. Its intensity is read from the emission-intensity
    /// channel; its colour from the emission-colour channel if `tinted`, and is
    /// white otherwise. No secondary ray is cast.
    Emit { tinted: bool },
    /// The hit contributes no light and no secondary ray is cast.
    Dark,
    /// Secondary rays are cast, each with `bounces` bounces left: a hemisphere of
    /// samples around the normal if `diffuse`, samples around the mirror direction
    /// if `specular`. With both lobes the two results are blended by intensity.
    Bounce { diffuse: bool, specular: bool, bounces: u8 },
}

impl<T> Material<T> {
    /// The plan for a hit on this material with `bounces_remaining` bounces left.
    ///
    /// Emission wins over everything and needs no budget. Otherwise an exhausted
    /// budget, or a material with neither albedo nor specular channel, gives no
    /// light; any other material bounces with one bounce fewer.
    pub open spec fn plan(&self, bounces_remaining: u8) -> ShadePlan {
        if self.texture_emission_intensity is Some {
            ShadePlan::Emit { tinted: self.texture_emission_color is Some }
        } else if bounces_remaining == 0 {
            ShadePlan::Dark
        } else if self.texture_albedo is None && self.texture_specular is None {
            ShadePlan::Dark
        } else {
            ShadePlan::Bounce {
                diffuse: self.texture_albedo is Some,
                specular: self.texture_specular is Some,
                bounces: (bounces_remaining - 1) as u8,
            }
        }
    }

    /// A material with every channel absent.
    pub fn new() -> (m: Self)
        ensures
            m.texture_albedo is None,
            m.texture_specular is None,
            m.texture_normal is None,
            m.texture_emission_color is None,
            m.texture_emission_intensity is None,
    {
        Material {
            texture_albedo: None,
            texture_specular: None,
            texture_normal: None,
            texture_emission_color: None,
            texture_emission_intensity: None,
        }
    }

    /// Decides how a hit on this material is shaded when `bounces_remaining`
    /// bounces are left.
    pub fn shade(&self, bounces_remaining: u8) -> (plan: ShadePlan)
        ensures
            plan == self.plan(bounces_remaining),
    {
        if self.texture_emission_intensity.is_some() {
            ShadePlan::Emit { tinted: self.texture_emission_color.is_some() }
        } else if bounces_remaining == 0 {
            ShadePlan::Dark
        } else {
            let diffuse = self.texture_albedo.is_some();
            let specular = self.texture_specular.is_some();
            if !diffuse && !specular {
                ShadePlan::Dark
            } else {
                ShadePlan::Bounce { diffuse, specular, bounces: bounces_remaining - 1 }
            }
        }
    }
}

impl ShadePlan {
    /// The largest number of secondary rays the plan casts when each lobe takes
    /// `samples` samples.
    pub open spec fn ray_bound(self, samples: nat) -> nat {
        match self {
            ShadePlan::Emit { .. } => 0,
            ShadePlan::Dark => 0,
            ShadePlan::Bounce { diffuse, specular, .. } => {
                (if diffuse { samples } else { 0 }) + (if specular { samples } else { 0 })
            },
        }
    }
}

/// A surface with an emission-intensity channel is shaded without any secondary
/// ray, whatever the budget, the number of samples and its other channels.
pub proof fn lemma_emission_ends_the_path<T>(m: Material<T>, bounces_remaining: u8, samples: nat)
    requires
        m.texture_emission_intensity is Some,
    ensures
        m.plan(bounces_remaining) == (ShadePlan::Emit { tinted: m.texture_emission_color is Some }),
        m.plan(bounces_remaining).ray_bound(samples) == 0,
{
}

/// Every secondary ray has strictly fewer bounces left than the hit that casts it,
/// and one hit casts at most two lobes of samples.
pub proof fn lemma_budget_decreases<T>(m: Material<T>, bounces_remaining: u8, samples: nat)
    ensures
        m.plan(bounces_remaining) matches ShadePlan::Bounce { bounces, .. } ==> bounces
            < bounces_remaining,
        m.plan(bounces_remaining).ray_bound(samples) <= 2 * samples,
        bounces_remaining == 0 ==> m.plan(bounces_remaining).ray_bound(samples) == 0,
{
}

} // verus!
