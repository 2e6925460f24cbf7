use vstd::prelude::*;

verus! {

/// The sprite frames of the EMF meter's display states.
#[derive(Clone, Copy, Debug, PartialEq, Eq, Structural)]
pub enum GearSpriteID {
    EMFMeterOff,
    EMFMeter0,
    EMFMeter1,
    EMFMeter2,
    EMFMeter3,
    EMFMeter4,
}

/// The discrete reading levels of the EMF meter, from no anomaly to the
/// strongest; the quiet level means no anomalous reading.
#[derive(Clone, Copy, Debug, Default, PartialEq, Eq, Structural)]
pub enum EMFLevel {
    #[default]
    Quiet,
    EMF2,
    EMF3,
    EMF4,
    EMF5,
}

impl EMFLevel {
    /// The reading level for a field strength in milli-milligauss:
    /// thresholds at 1.5, 2.5, 10 and 20 milligauss.
    pub fn from_milligauss(mg: i64) -> (r: EMFLevel)
        ensures
            r == (if mg > 20000 {
                EMFLevel::EMF5
            } else if mg > 10000 {
                EMFLevel::EMF4
            } else if mg > 2500 {
                EMFLevel::EMF3
            } else if mg > 1500 {
                EMFLevel::EMF2
            } else {
                EMFLevel::Quiet
            }),
    {
        if mg > 20000 {
            return EMFLevel::EMF5;
        }
        if mg > 10000 {
            return EMFLevel::EMF4;
        }
        if mg > 2500 {
            return EMFLevel::EMF3;
        }
        if mg > 1500 {
            return EMFLevel::EMF2;
        }
        EMFLevel::Quiet
    }

    /// The meter sprite frame showing this level.
    pub fn to_spriteid(&self) -> (r: GearSpriteID)
        ensures
            r == (match self {
                EMFLevel::Quiet => GearSpriteID::EMFMeter0,
                EMFLevel::EMF2 => GearSpriteID::EMFMeter1,
                EMFLevel::EMF3 => GearSpriteID::EMFMeter2,
                EMFLevel::EMF4 => GearSpriteID::EMFMeter3,
                EMFLevel::EMF5 => GearSpriteID::EMFMeter4,
            }),
    {
        match self {
            EMFLevel::Quiet => GearSpriteID::EMFMeter0,
            EMFLevel::EMF2 => GearSpriteID::EMFMeter1,
            EMFLevel::EMF3 => GearSpriteID::EMFMeter2,
            EMFLevel::EMF4 => GearSpriteID::EMFMeter3,
            EMFLevel::EMF5 => GearSpriteID::EMFMeter4,
        }
    }

    /// The status-line label of this level; the quiet level shows nothing.
    pub fn to_status(&self) -> (r: &'static str)
        ensures
            r@ == (match self {
                EMFLevel::Quiet => ""@,
                EMFLevel::EMF2 => "EMF2"@,
                EMFLevel::EMF3 => "EMF3"@,
                EMFLevel::EMF4 => "EMF4"@,
                EMFLevel::EMF5 => "EMF5"@,
            }),
    {
        match self {
            EMFLevel::Quiet => "",
            EMFLevel::EMF2 => "EMF2",
            EMFLevel::EMF3 => "EMF3",
            EMFLevel::EMF4 => "EMF4",
            EMFLevel::EMF5 => "EMF5",
        }
    }
}

} // verus!
