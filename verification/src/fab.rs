//! Slice / tile / mirror methods of an atlas-sprite part of a fabricated
//! combined sprite.
//!
//! Naming: `Id` = identity, `Mx/My/Mxy` = mirror duplicators, `Tx/Ty` =
//! tilers, `R<rows>c<cols>` = slice grids, `Nf` suffix = no centre fill,
//! `Mx_R<..>` / `My_R<..>` = mirrored slice grids. Geometric flips are not
//! methods: they are negative scales on the part's affine.

use vstd::prelude::*;

verus! {

broadcast use vstd::string::group_string_axioms;

/// How an atlas sprite is laid out into its target rect.
#[derive(Debug, Clone, Copy, PartialEq, Eq, Structural)]
pub enum Method {
    Id,
    Mx,
    My,
    Mxy,
    Tx,
    Ty,
    TxMc3,
    R1c3,
    R3c3,
    R3c3Nf,
    MxR1c3,
    MxR1c4,
    MxR3c2,
    MxR3c3,
    MxR3c4,
    MxR3c6,
    MyR2c2,
    MyR2c3,
    MyR3c1,
    MyR3c2,
    MyR3c3,
    MxyR3c3,
    MxyR3c3Nf,
}

/// The methods that work without a target rect: identity and the mirror
/// duplicators.
pub open spec fn spec_native_scale(m: Method) -> bool {
    m == Method::Id || m == Method::Mx || m == Method::My || m == Method::Mxy
}

/// The methods whose mesh ignores the source sprite's border.
pub open spec fn spec_borderless(m: Method) -> bool {
    spec_native_scale(m) || m == Method::Tx || m == Method::Ty
}

impl Method {
    /// True iff omitting `width`/`height` is an error: slice grids and
    /// tilers need a target rect; identity and mirror duplicators work both
    /// native-scale and size-fitted.
    pub fn requires_size(self) -> (r: bool)
        ensures
            r == !spec_native_scale(self),
    {
        !matches!(self, Method::Id | Method::Mx | Method::My | Method::Mxy)
    }

    /// True iff the method's mesh consumes the source sprite's border (so
    /// `borderMult` means something).
    pub fn uses_border(self) -> (r: bool)
        ensures
            r == !spec_borderless(self),
    {
        !matches!(self, Method::Id | Method::Mx | Method::My | Method::Mxy | Method::Tx | Method::Ty)
    }

    /// The method's name as authored (`ID`, `MX_R1C3`, …).
    pub fn name(self) -> (s: &'static str)
        ensures
            s@ == spec_method_name(self),
    {
        match self {
            Method::Id => "ID",
            Method::Mx => "MX",
            Method::My => "MY",
            Method::Mxy => "MXY",
            Method::Tx => "TX",
            Method::Ty => "TY",
            Method::TxMc3 => "TX_MC3",
            Method::R1c3 => "R1C3",
            Method::R3c3 => "R3C3",
            Method::R3c3Nf => "R3C3_NF",
            Method::MxR1c3 => "MX_R1C3",
            Method::MxR1c4 => "MX_R1C4",
            Method::MxR3c2 => "MX_R3C2",
            Method::MxR3c3 => "MX_R3C3",
            Method::MxR3c4 => "MX_R3C4",
            Method::MxR3c6 => "MX_R3C6",
            Method::MyR2c2 => "MY_R2C2",
            Method::MyR2c3 => "MY_R2C3",
            Method::MyR3c1 => "MY_R3C1",
            Method::MyR3c2 => "MY_R3C2",
            Method::MyR3c3 => "MY_R3C3",
            Method::MxyR3c3 => "MXY_R3C3",
            Method::MxyR3c3Nf => "MXY_R3C3_NF",
        }
    }
}

/// The authored name of each method.
pub open spec fn spec_method_name(m: Method) -> Seq<char> {
    match m {
        Method::Id => "ID"@,
        Method::Mx => "MX"@,
        Method::My => "MY"@,
        Method::Mxy => "MXY"@,
        Method::Tx => "TX"@,
        Method::Ty => "TY"@,
        Method::TxMc3 => "TX_MC3"@,
        Method::R1c3 => "R1C3"@,
        Method::R3c3 => "R3C3"@,
        Method::R3c3Nf => "R3C3_NF"@,
        Method::MxR1c3 => "MX_R1C3"@,
        Method::MxR1c4 => "MX_R1C4"@,
        Method::MxR3c2 => "MX_R3C2"@,
        Method::MxR3c3 => "MX_R3C3"@,
        Method::MxR3c4 => "MX_R3C4"@,
        Method::MxR3c6 => "MX_R3C6"@,
        Method::MyR2c2 => "MY_R2C2"@,
        Method::MyR2c3 => "MY_R2C3"@,
        Method::MyR3c1 => "MY_R3C1"@,
        Method::MyR3c2 => "MY_R3C2"@,
        Method::MyR3c3 => "MY_R3C3"@,
        Method::MxyR3c3 => "MXY_R3C3"@,
        Method::MxyR3c3Nf => "MXY_R3C3_NF"@,
    }
}

/// Every method that reads the source border also needs a target rect:
/// the border-free methods include all the native-scale ones.
pub proof fn lemma_uses_border_requires_size(m: Method)
    ensures
        !spec_borderless(m) ==> !spec_native_scale(m),
{
}

} // verus!
