use vstd::prelude::*;
use crate::chars::str_eq;
use crate::input::TouchProto;

verus! {

pub const INTERNAL_CARD_ROOT: &'static str = "/mnt/onboard";
pub const EXTERNAL_CARD_ROOT: &'static str = "/mnt/sd";

/// The e-reader models.
#[derive(Debug, Copy, Clone, PartialEq, Eq, Structural)]
pub enum Model {
    LibraH2O,
    Forma32GB,
    Forma,
    ClaraHD,
    AuraH2OEd2V2,
    AuraH2OEd2V1,
    AuraEd2V2,
    AuraEd2V1,
    AuraONELimEd,
    AuraONE,
    Touch2,
    GloHD,
    AuraH2O,
    Aura,
    AuraHD,
    Mini,
    Glo,
    TouchC,
    TouchAB,
}

#[derive(Debug, Copy, Clone, PartialEq, Eq, Structural)]
pub enum Orientation {
    Portrait,
    Landscape,
}

#[derive(Debug, Copy, Clone)]
pub struct Device {
    pub model: Model,
    pub proto: TouchProto,
    pub dims: (u32, u32),
    pub dpi: u16,
}

#[derive(Debug, Copy, Clone, PartialEq, Eq, Structural)]
pub enum FrontlightKind {
    Standard,
    Natural,
    Premixed,
}

/// The marketing name of a model.
pub open spec fn model_name(m: Model) -> Seq<char> {
    match m {
        Model::LibraH2O => "Libra H₂O"@,
        Model::Forma32GB => "Forma 32GB"@,
        Model::Forma => "Forma"@,
        Model::ClaraHD => "Clara HD"@,
        Model::AuraH2OEd2V2 => "Aura H₂O Edition 2 Version 2"@,
        Model::AuraH2OEd2V1 => "Aura H₂O Edition 2 Version 1"@,
        Model::AuraEd2V2 => "Aura Edition 2 Version 2"@,
        Model::AuraEd2V1 => "Aura Edition 2 Version 1"@,
        Model::AuraONELimEd => "Aura ONE Limited Edition"@,
        Model::AuraONE => "Aura ONE"@,
        Model::Touch2 => "Touch 2.0"@,
        Model::GloHD => "Glo HD"@,
        Model::AuraH2O => "Aura H₂O"@,
        Model::Aura => "Aura"@,
        Model::AuraHD => "Aura HD"@,
        Model::Mini => "Mini"@,
        Model::Glo => "Glo"@,
        Model::TouchC => "Touch C"@,
        Model::TouchAB => "Touch A/B"@,
    }
}

impl Model {
    /// The marketing name of the model.
    pub fn name(&self) -> (s: &'static str)
        ensures
            s@ == model_name(*self),
    {
        match *self {
            Model::LibraH2O => "Libra H₂O",
            Model::Forma32GB => "Forma 32GB",
            Model::Forma => "Forma",
            Model::ClaraHD => "Clara HD",
            Model::AuraH2OEd2V2 => "Aura H₂O Edition 2 Version 2",
            Model::AuraH2OEd2V1 => "Aura H₂O Edition 2 Version 1",
            Model::AuraEd2V2 => "Aura Edition 2 Version 2",
            Model::AuraEd2V1 => "Aura Edition 2 Version 1",
            Model::AuraONELimEd => "Aura ONE Limited Edition",
            Model::AuraONE => "Aura ONE",
            Model::Touch2 => "Touch 2.0",
            Model::GloHD => "Glo HD",
            Model::AuraH2O => "Aura H₂O",
            Model::Aura => "Aura",
            Model::AuraHD => "Aura HD",
            Model::Mini => "Mini",
            Model::Glo => "Glo",
            Model::TouchC => "Touch C",
            Model::TouchAB => "Touch A/B",
        }
    }
}

/// The device that the product code names; the model number tells apart the variants of a
/// product.
pub open spec fn device_of(product: Seq<char>, model_number: Seq<char>) -> Device {
    if product == "kraken"@ {
        Device { model: Model::Glo, proto: TouchProto::Single, dims: (758, 1024), dpi: 212 }
    } else if product == "pixie"@ {
        Device { model: Model::Mini, proto: TouchProto::Single, dims: (600, 800), dpi: 200 }
    } else if product == "dragon"@ {
        Device { model: Model::AuraHD, proto: TouchProto::Single, dims: (1080, 1440), dpi: 265 }
    } else if product == "phoenix"@ {
        Device { model: Model::Aura, proto: TouchProto::MultiA, dims: (758, 1024), dpi: 212 }
    } else if product == "dahlia"@ {
        Device { model: Model::AuraH2O, proto: TouchProto::MultiA, dims: (1080, 1440), dpi: 265 }
    } else if product == "alyssum"@ {
        Device { model: Model::GloHD, proto: TouchProto::MultiA, dims: (1072, 1448), dpi: 300 }
    } else if product == "pika"@ {
        Device { model: Model::Touch2, proto: TouchProto::MultiA, dims: (600, 800), dpi: 167 }
    } else if product == "daylight"@ {
        Device { model: if model_number == "381"@ { Model::AuraONELimEd } else { Model::AuraONE }, proto: TouchProto::MultiA, dims: (1404, 1872), dpi: 300 }
    } else if product == "star"@ {
        Device { model: if model_number == "379"@ { Model::AuraEd2V2 } else { Model::AuraEd2V1 }, proto: TouchProto::MultiA, dims: (758, 1024), dpi: 212 }
    } else if product == "snow"@ {
        Device { model: if model_number == "378"@ { Model::AuraH2OEd2V2 } else { Model::AuraH2OEd2V1 }, proto: TouchProto::MultiB, dims: (1080, 1440), dpi: 265 }
    } else if product == "nova"@ {
        Device { model: Model::ClaraHD, proto: TouchProto::MultiB, dims: (1072, 1448), dpi: 300 }
    } else if product == "frost"@ {
        Device { model: if model_number == "380"@ { Model::Forma32GB } else { Model::Forma }, proto: TouchProto::MultiB, dims: (1440, 1920), dpi: 300 }
    } else if product == "storm"@ {
        Device { model: Model::LibraH2O, proto: TouchProto::MultiB, dims: (1264, 1680), dpi: 300 }
    } else {
        Device { model: if model_number == "320"@ { Model::TouchC } else { Model::TouchAB }, proto: TouchProto::Single, dims: (600, 800), dpi: 167 }
    }
}

pub open spec fn spec_frontlight_kind(m: Model) -> FrontlightKind {
    match m {
        Model::AuraONE | Model::AuraONELimEd | Model::AuraH2OEd2V1 | Model::AuraH2OEd2V2 => FrontlightKind::Natural,
        Model::ClaraHD | Model::Forma | Model::Forma32GB | Model::LibraH2O => FrontlightKind::Premixed,
        _ => FrontlightKind::Standard,
    }
}

pub open spec fn spec_mirroring_scheme(m: Model) -> (i8, i8) {
    match m {
        Model::AuraH2OEd2V1 => (3, 1),
        Model::AuraH2OEd2V2 => (0i8, -1i8),
        Model::Forma | Model::Forma32GB => (2i8, -1i8),
        Model::LibraH2O => (3, 1),
        _ => (2, 1),
    }
}

pub open spec fn spec_startup_rotation(m: Model) -> i8 {
    match m {
        Model::LibraH2O => 0,
        Model::AuraH2OEd2V1 => 1,
        Model::Forma | Model::Forma32GB => 1,
        _ => 3,
    }
}

pub open spec fn spec_swapping_scheme(m: Model) -> i8 {
    match m {
        Model::LibraH2O => 0,
        _ => 1,
    }
}

/// The remainder of `x` divided by `m`, with the sign of `x`, as the machine computes it.
pub open spec fn trunc_rem(x: int, m: int) -> int {
    if x >= 0 {
        x % m
    } else {
        -((-x) % m)
    }
}

pub open spec fn spec_mark(m: Model) -> u8 {
    match m {
        Model::LibraH2O | Model::Forma32GB | Model::Forma | Model::ClaraHD | Model::AuraH2OEd2V2
        | Model::AuraEd2V2 => 7,
        Model::AuraH2OEd2V1 | Model::AuraEd2V1 | Model::AuraONELimEd | Model::AuraONE
        | Model::Touch2 | Model::GloHD => 6,
        Model::AuraH2O | Model::Aura => 5,
        Model::AuraHD | Model::Mini | Model::Glo | Model::TouchC => 4,
        Model::TouchAB => 3,
    }
}

impl Device {
    /// The device of the given product and model number (as the `PRODUCT` and
    /// `MODEL_NUMBER` environment variables give them).
    pub fn new(product: &str, model_number: &str) -> (d: Device)
        ensures
            d == device_of(product@, model_number@),
    {
    if str_eq(product, "kraken") {
        Device { model: Model::Glo, proto: TouchProto::Single, dims: (758, 1024), dpi: 212 }
    } else if str_eq(product, "pixie") {
        Device { model: Model::Mini, proto: TouchProto::Single, dims: (600, 800), dpi: 200 }
    } else if str_eq(product, "dragon") {
        Device { model: Model::AuraHD, proto: TouchProto::Single, dims: (1080, 1440), dpi: 265 }
    } else if str_eq(product, "phoenix") {
        Device { model: Model::Aura, proto: TouchProto::MultiA, dims: (758, 1024), dpi: 212 }
    } else if str_eq(product, "dahlia") {
        Device { model: Model::AuraH2O, proto: TouchProto::MultiA, dims: (1080, 1440), dpi: 265 }
    } else if str_eq(product, "alyssum") {
        Device { model: Model::GloHD, proto: TouchProto::MultiA, dims: (1072, 1448), dpi: 300 }
    } else if str_eq(product, "pika") {
        Device { model: Model::Touch2, proto: TouchProto::MultiA, dims: (600, 800), dpi: 167 }
    } else if str_eq(product, "daylight") {
        Device { model: if str_eq(model_number, "381") { Model::AuraONELimEd } else { Model::AuraONE }, proto: TouchProto::MultiA, dims: (1404, 1872), dpi: 300 }
    } else if str_eq(product, "star") {
        Device { model: if str_eq(model_number, "379") { Model::AuraEd2V2 } else { Model::AuraEd2V1 }, proto: TouchProto::MultiA, dims: (758, 1024), dpi: 212 }
    } else if str_eq(product, "snow") {
        Device { model: if str_eq(model_number, "378") { Model::AuraH2OEd2V2 } else { Model::AuraH2OEd2V1 }, proto: TouchProto::MultiB, dims: (1080, 1440), dpi: 265 }
    } else if str_eq(product, "nova") {
        Device { model: Model::ClaraHD, proto: TouchProto::MultiB, dims: (1072, 1448), dpi: 300 }
    } else if str_eq(product, "frost") {
        Device { model: if str_eq(model_number, "380") { Model::Forma32GB } else { Model::Forma }, proto: TouchProto::MultiB, dims: (1440, 1920), dpi: 300 }
    } else if str_eq(product, "storm") {
        Device { model: Model::LibraH2O, proto: TouchProto::MultiB, dims: (1264, 1680), dpi: 300 }
    } else {
        Device { model: if str_eq(model_number, "320") { Model::TouchC } else { Model::TouchAB }, proto: TouchProto::Single, dims: (600, 800), dpi: 167 }
    }
    }

    /// The directory of the library: on the external card for the oldest models.
    pub fn library_path(&self) -> (p: &'static str)
        ensures
            p@ == match self.model {
                Model::AuraH2O | Model::Aura | Model::AuraHD | Model::Mini | Model::Glo
                | Model::TouchAB | Model::TouchC => EXTERNAL_CARD_ROOT@,
                _ => INTERNAL_CARD_ROOT@,
            },
    {
        match self.model {
            Model::AuraH2O | Model::Aura | Model::AuraHD | Model::Mini | Model::Glo
            | Model::TouchAB | Model::TouchC => EXTERNAL_CARD_ROOT,
            _ => INTERNAL_CARD_ROOT,
        }
    }

    pub fn frontlight_kind(&self) -> (k: FrontlightKind)
        ensures
            k == spec_frontlight_kind(self.model),
    {
        match self.model {
            Model::AuraONE | Model::AuraONELimEd | Model::AuraH2OEd2V1 | Model::AuraH2OEd2V2 => FrontlightKind::Natural,
            Model::ClaraHD | Model::Forma | Model::Forma32GB | Model::LibraH2O => FrontlightKind::Premixed,
            _ => FrontlightKind::Standard,
        }
    }

    /// Whether the frontlight has a warmth setting.
    pub fn has_natural_light(&self) -> (b: bool)
        ensures
            b == (spec_frontlight_kind(self.model) != FrontlightKind::Standard),
    {
        match self.frontlight_kind() {
            FrontlightKind::Standard => false,
            _ => true,
        }
    }

    pub fn has_lightsensor(&self) -> (b: bool)
        ensures
            b == (self.model == Model::AuraONE || self.model == Model::AuraONELimEd),
    {
        match self.model {
            Model::AuraONE | Model::AuraONELimEd => true,
            _ => false,
        }
    }

    pub fn has_gyroscope(&self) -> (b: bool)
        ensures
            b == (self.model == Model::Forma || self.model == Model::Forma32GB || self.model
                == Model::LibraH2O),
    {
        match self.model {
            Model::Forma | Model::Forma32GB | Model::LibraH2O => true,
            _ => false,
        }
    }

    pub fn has_page_turn_buttons(&self) -> (b: bool)
        ensures
            b == (self.model == Model::Forma || self.model == Model::Forma32GB || self.model
                == Model::LibraH2O),
    {
        match self.model {
            Model::Forma | Model::Forma32GB | Model::LibraH2O => true,
            _ => false,
        }
    }

    /// Whether the page turn buttons swap their roles at the given rotation.
    pub fn should_invert_buttons(&self, rotation: i8) -> (b: bool)
        ensures
            ({
                let sr = spec_startup_rotation(self.model) as int;
                let dir = spec_mirroring_scheme(self.model).1 as int;
                b == (rotation as int == (4 + sr - dir) % 4 || rotation as int == (4 + sr - 2 * dir) % 4)
            }),
    {
        let sr = self.startup_rotation();
        let (_, dir) = self.mirroring_scheme();
        rotation == (4 + sr - dir) % 4 || rotation == (4 + sr - 2 * dir) % 4
    }

    pub fn orientation(&self, rotation: i8) -> (o: Orientation)
        ensures
            o == if trunc_rem(rotation as int, 2) == spec_swapping_scheme(self.model) {
                Orientation::Portrait
            } else {
                Orientation::Landscape
            },
    {
        let discriminant: i8 = match self.model {
            Model::LibraH2O => 0,
            _ => 1,
        };
        if rotation % 2 == discriminant {
            Orientation::Portrait
        } else {
            Orientation::Landscape
        }
    }

    /// The hardware generation of the model.
    pub fn mark(&self) -> (m: u8)
        ensures
            m == spec_mark(self.model),
    {
        match self.model {
            Model::LibraH2O | Model::Forma32GB | Model::Forma | Model::ClaraHD
            | Model::AuraH2OEd2V2 | Model::AuraEd2V2 => 7,
            Model::AuraH2OEd2V1 | Model::AuraEd2V1 | Model::AuraONELimEd | Model::AuraONE
            | Model::Touch2 | Model::GloHD => 6,
            Model::AuraH2O | Model::Aura => 5,
            Model::AuraHD | Model::Mini | Model::Glo | Model::TouchC => 4,
            Model::TouchAB => 3,
        }
    }

    /// Whether the touch coordinates are mirrored along each axis at the given rotation.
    pub fn should_mirror_axes(&self, rotation: i8) -> (r: (bool, bool))
        ensures
            r == mirror_axes_of(self.model, rotation),
    {
        let (mxy, dir) = self.mirroring_scheme();
        let mx = (4 + (mxy + dir)) % 4;
        let my = (4 + (mxy - dir)) % 4;
        let mirror_x = mxy == rotation || mx == rotation;
        let mirror_y = mxy == rotation || my == rotation;
        (mirror_x, mirror_y)
    }

    /// The center and direction of the mirroring pattern.
    pub fn mirroring_scheme(&self) -> (r: (i8, i8))
        ensures
            r == spec_mirroring_scheme(self.model),
    {
        match self.model {
            Model::AuraH2OEd2V1 => (3, 1),
            Model::AuraH2OEd2V2 => (0, -1),
            Model::Forma | Model::Forma32GB => (2, -1),
            Model::LibraH2O => (3, 1),
            _ => (2, 1),
        }
    }

    pub fn should_swap_axes(&self, rotation: i8) -> (b: bool)
        ensures
            b == (trunc_rem(rotation as int, 2) == spec_swapping_scheme(self.model)),
    {
        rotation % 2 == self.swapping_scheme()
    }

    pub fn swapping_scheme(&self) -> (s: i8)
        ensures
            s == spec_swapping_scheme(self.model),
    {
        match self.model {
            Model::LibraH2O => 0,
            _ => 1,
        }
    }

    pub fn startup_rotation(&self) -> (r: i8)
        ensures
            r == spec_startup_rotation(self.model),
    {
        match self.model {
            Model::LibraH2O => 0,
            Model::AuraH2OEd2V1 => 1,
            Model::Forma | Model::Forma32GB => 1,
            _ => 3,
        }
    }

    /// The rotation of the display that stands for the rotation `n` of the frame buffer.
    pub fn transformed_rotation(&self, n: i8) -> (r: i8)
        requires
            self.model == Model::AuraH2OEd2V2 || self.model == Model::Forma || self.model
                == Model::Forma32GB ==> 4 - n <= i8::MAX,
        ensures
            r == transformed_rotation_of(self.model, n),
    {
        match self.model {
            Model::AuraHD | Model::AuraH2O => n ^ 2,
            Model::AuraH2OEd2V2 => (4 - n) % 4,
            Model::Forma | Model::Forma32GB => (4 - n) % 4,
            _ => n,
        }
    }

    /// The rotation that stands for the gyroscope's rotation `n`.
    pub fn transformed_gyroscope_rotation(&self, n: i8) -> (r: i8)
        ensures
            r == match self.model {
                Model::LibraH2O => n ^ 1,
                _ => n,
            },
    {
        match self.model {
            Model::LibraH2O => n ^ 1,
            _ => n,
        }
    }
}

/// Whether the touch coordinates of a model are mirrored along each axis at a rotation: along
/// both at the center of its mirroring pattern, along one axis on each side of it.
pub open spec fn mirror_axes_of(model: Model, rotation: i8) -> (bool, bool) {
    let (mxy, dir) = spec_mirroring_scheme(model);
    let mx = (4 + (mxy + dir)) % 4;
    let my = (4 + (mxy - dir)) % 4;
    (mxy == rotation || mx == rotation, mxy == rotation || my == rotation)
}

/// The rotation of the display that stands for the rotation `n` of the frame buffer.
pub open spec fn transformed_rotation_of(model: Model, n: i8) -> i8 {
    match model {
        Model::AuraHD | Model::AuraH2O => n ^ 2,
        Model::AuraH2OEd2V2 | Model::Forma | Model::Forma32GB => trunc_rem(4 - n, 4) as i8,
        _ => n,
    }
}

/// For each of the four rotations, transforming it twice gives it back.
pub proof fn lemma_transformed_rotation_involution(model: Model, n: i8)
    requires
        0 <= n <= 3,
    ensures
        0 <= transformed_rotation_of(model, n) <= 3,
        transformed_rotation_of(model, transformed_rotation_of(model, n)) == n,
{
    assert((n ^ 2) ^ 2 == n && (0 <= n <= 3 ==> 0 <= n ^ 2 <= 3)) by (bit_vector);
}


/// The frontlights of the devices by their product names: the Clara HD (`nova`), the Forma
/// (`frost`, both sizes) and the Libra H2O (`storm`) mix warm and cold light themselves; the
/// Aura ONE (`daylight`, both editions) and the second Aura H2O (`snow`, both versions) drive
/// the two colors apart; every other device has a white light only.
pub proof fn lemma_frontlight_by_product(product: Seq<char>, model_number: Seq<char>)
    ensures
        ({
            let k = spec_frontlight_kind(device_of(product, model_number).model);
            &&& (k == FrontlightKind::Premixed <==> (product == "nova"@ || product == "frost"@ || product
                == "storm"@))
            &&& (k == FrontlightKind::Natural <==> (product == "daylight"@ || product == "snow"@))
        }),
{
    reveal_strlit("kraken");
    reveal_strlit("pixie");
    reveal_strlit("dragon");
    reveal_strlit("phoenix");
    reveal_strlit("dahlia");
    reveal_strlit("alyssum");
    reveal_strlit("pika");
    reveal_strlit("daylight");
    reveal_strlit("star");
    reveal_strlit("snow");
    reveal_strlit("nova");
    reveal_strlit("frost");
    reveal_strlit("storm");
    assert("kraken"@.len() != "pixie"@.len());
    assert("kraken"@[0] != "dragon"@[0]);
    assert("kraken"@.len() != "phoenix"@.len());
    assert("kraken"@[0] != "dahlia"@[0]);
    assert("kraken"@.len() != "alyssum"@.len());
    assert("kraken"@.len() != "pika"@.len());
    assert("kraken"@.len() != "daylight"@.len());
    assert("kraken"@.len() != "star"@.len());
    assert("kraken"@.len() != "snow"@.len());
    assert("kraken"@.len() != "nova"@.len());
    assert("kraken"@.len() != "frost"@.len());
    assert("kraken"@.len() != "storm"@.len());
    assert("pixie"@.len() != "dragon"@.len());
    assert("pixie"@.len() != "phoenix"@.len());
    assert("pixie"@.len() != "dahlia"@.len());
    assert("pixie"@.len() != "alyssum"@.len());
    assert("pixie"@.len() != "pika"@.len());
    assert("pixie"@.len() != "daylight"@.len());
    assert("pixie"@.len() != "star"@.len());
    assert("pixie"@.len() != "snow"@.len());
    assert("pixie"@.len() != "nova"@.len());
    assert("pixie"@[0] != "frost"@[0]);
    assert("pixie"@[0] != "storm"@[0]);
    assert("dragon"@.len() != "phoenix"@.len());
    assert("dragon"@[1] != "dahlia"@[1]);
    assert("dragon"@.len() != "alyssum"@.len());
    assert("dragon"@.len() != "pika"@.len());
    assert("dragon"@.len() != "daylight"@.len());
    assert("dragon"@.len() != "star"@.len());
    assert("dragon"@.len() != "snow"@.len());
    assert("dragon"@.len() != "nova"@.len());
    assert("dragon"@.len() != "frost"@.len());
    assert("dragon"@.len() != "storm"@.len());
    assert("phoenix"@.len() != "dahlia"@.len());
    assert("phoenix"@[0] != "alyssum"@[0]);
    assert("phoenix"@.len() != "pika"@.len());
    assert("phoenix"@.len() != "daylight"@.len());
    assert("phoenix"@.len() != "star"@.len());
    assert("phoenix"@.len() != "snow"@.len());
    assert("phoenix"@.len() != "nova"@.len());
    assert("phoenix"@.len() != "frost"@.len());
    assert("phoenix"@.len() != "storm"@.len());
    assert("dahlia"@.len() != "alyssum"@.len());
    assert("dahlia"@.len() != "pika"@.len());
    assert("dahlia"@.len() != "daylight"@.len());
    assert("dahlia"@.len() != "star"@.len());
    assert("dahlia"@.len() != "snow"@.len());
    assert("dahlia"@.len() != "nova"@.len());
    assert("dahlia"@.len() != "frost"@.len());
    assert("dahlia"@.len() != "storm"@.len());
    assert("alyssum"@.len() != "pika"@.len());
    assert("alyssum"@.len() != "daylight"@.len());
    assert("alyssum"@.len() != "star"@.len());
    assert("alyssum"@.len() != "snow"@.len());
    assert("alyssum"@.len() != "nova"@.len());
    assert("alyssum"@.len() != "frost"@.len());
    assert("alyssum"@.len() != "storm"@.len());
    assert("pika"@.len() != "daylight"@.len());
    assert("pika"@[0] != "star"@[0]);
    assert("pika"@[0] != "snow"@[0]);
    assert("pika"@[0] != "nova"@[0]);
    assert("pika"@.len() != "frost"@.len());
    assert("pika"@.len() != "storm"@.len());
    assert("daylight"@.len() != "star"@.len());
    assert("daylight"@.len() != "snow"@.len());
    assert("daylight"@.len() != "nova"@.len());
    assert("daylight"@.len() != "frost"@.len());
    assert("daylight"@.len() != "storm"@.len());
    assert("star"@[1] != "snow"@[1]);
    assert("star"@[0] != "nova"@[0]);
    assert("star"@.len() != "frost"@.len());
    assert("star"@.len() != "storm"@.len());
    assert("snow"@[0] != "nova"@[0]);
    assert("snow"@.len() != "frost"@.len());
    assert("snow"@.len() != "storm"@.len());
    assert("nova"@.len() != "frost"@.len());
    assert("nova"@.len() != "storm"@.len());
    assert("frost"@[0] != "storm"@[0]);
}

} // verus!
