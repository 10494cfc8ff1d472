//! The sound effects and where their files lie.

use vstd::prelude::*;

verus! {

/// A sound that the application plays.
#[derive(Clone, Copy, Debug, PartialEq, Eq, Structural)]
pub enum SoundEffect {
    LightPop,
    UiBell,
    UiPopUp,
    UiThreePop,
    UiTrillDown,
    UiTrill,
    Victory,
}

impl SoundEffect {
    /// The file of the effect, under the assets of the application.
    pub open spec fn path_text(self) -> Seq<char> {
        match self {
            SoundEffect::LightPop => "sounds/light-pop.mp3"@,
            SoundEffect::UiBell => "sounds/ui-bell.mp3"@,
            SoundEffect::UiPopUp => "sounds/ui-pop-up.mp3"@,
            SoundEffect::UiThreePop => "sounds/ui-three-pop.mp3"@,
            SoundEffect::UiTrillDown => "sounds/ui-trill-down.mp3"@,
            SoundEffect::UiTrill => "sounds/ui-trill.mp3"@,
            SoundEffect::Victory => "sounds/nyt.mp3"@,
        }
    }

    /// The file of the effect, under the assets of the application.
    pub fn to_path(&self) -> (path: &'static str)
        ensures
            path@ == self.path_text(),
    {
        match self {
            SoundEffect::LightPop => "sounds/light-pop.mp3",
            SoundEffect::UiBell => "sounds/ui-bell.mp3",
            SoundEffect::UiPopUp => "sounds/ui-pop-up.mp3",
            SoundEffect::UiThreePop => "sounds/ui-three-pop.mp3",
            SoundEffect::UiTrillDown => "sounds/ui-trill-down.mp3",
            SoundEffect::UiTrill => "sounds/ui-trill.mp3",
            SoundEffect::Victory => "sounds/nyt.mp3",
        }
    }

    /// The effects of the user interface: every effect but `Victory`.
    pub fn all() -> (effects: Vec<SoundEffect>)
        ensures
            effects@ == seq![
                SoundEffect::LightPop,
                SoundEffect::UiBell,
                SoundEffect::UiPopUp,
                SoundEffect::UiThreePop,
                SoundEffect::UiTrillDown,
                SoundEffect::UiTrill,
            ],
    {
        let mut effects: Vec<SoundEffect> = Vec::new();
        effects.push(SoundEffect::LightPop);
        effects.push(SoundEffect::UiBell);
        effects.push(SoundEffect::UiPopUp);
        effects.push(SoundEffect::UiThreePop);
        effects.push(SoundEffect::UiTrillDown);
        effects.push(SoundEffect::UiTrill);
        assert(effects@ =~= seq![
            SoundEffect::LightPop,
            SoundEffect::UiBell,
            SoundEffect::UiPopUp,
            SoundEffect::UiThreePop,
            SoundEffect::UiTrillDown,
            SoundEffect::UiTrill,
        ]);
        effects
    }
}

} // verus!
