//! Built-in thing types, used when no project thing definitions are loaded.

use vstd::prelude::*;

verus! {

/// Display name, type number, canvas colour, sprite prefix (4 chars; frame A is the icon;
/// empty draws a colour square).
#[derive(Debug, Clone, Copy)]
pub struct ThingType {
    pub name: &'static str,
    pub kind: i32,
    pub color: [u8; 4],
    pub sprite: &'static str,
    /// Doom II only; hidden when editing a Doom 1 IWAD.
    pub doom2_only: bool,
}

/// The built-in thing table, in palette order.
pub open spec fn default_things_table() -> Seq<ThingType> {
    seq![
            ThingType { name: "Player 1 start", kind: 1, color: [0x00, 0xb0, 0x40, 0xff], sprite: "PLAY", doom2_only: false },
            ThingType { name: "Player 2 start", kind: 2, color: [0x00, 0xb0, 0x40, 0xff], sprite: "PLAY", doom2_only: false },
            ThingType { name: "Player 3 start", kind: 3, color: [0x00, 0xb0, 0x40, 0xff], sprite: "PLAY", doom2_only: false },
            ThingType { name: "Player 4 start", kind: 4, color: [0x00, 0xb0, 0x40, 0xff], sprite: "PLAY", doom2_only: false },
            ThingType { name: "Deathmatch start", kind: 11, color: [0x40, 0xb0, 0x00, 0xff], sprite: "PLAY", doom2_only: false },
            ThingType { name: "Teleport exit", kind: 14, color: [0x00, 0x80, 0xb0, 0xff], sprite: "", doom2_only: false },
            ThingType { name: "Zombieman", kind: 3004, color: [0xc0, 0x40, 0x30, 0xff], sprite: "POSS", doom2_only: false },
            ThingType { name: "Shotgun guy", kind: 9, color: [0xc0, 0x40, 0x30, 0xff], sprite: "SPOS", doom2_only: false },
            ThingType { name: "Heavy weapon dude", kind: 65, color: [0xc0, 0x40, 0x30, 0xff], sprite: "CPOS", doom2_only: true },
            ThingType { name: "Imp", kind: 3001, color: [0xc0, 0x40, 0x30, 0xff], sprite: "TROO", doom2_only: false },
            ThingType { name: "Demon", kind: 3002, color: [0xc0, 0x40, 0x30, 0xff], sprite: "SARG", doom2_only: false },
            ThingType { name: "Spectre", kind: 58, color: [0x90, 0x90, 0xb0, 0xff], sprite: "SARG", doom2_only: false },
            ThingType { name: "Lost soul", kind: 3006, color: [0xc0, 0xa0, 0x40, 0xff], sprite: "SKUL", doom2_only: false },
            ThingType { name: "Cacodemon", kind: 3005, color: [0xc0, 0x40, 0x30, 0xff], sprite: "HEAD", doom2_only: false },
            ThingType { name: "Pain elemental", kind: 71, color: [0xc0, 0x40, 0x30, 0xff], sprite: "PAIN", doom2_only: true },
            ThingType { name: "Revenant", kind: 66, color: [0xc0, 0x40, 0x30, 0xff], sprite: "SKEL", doom2_only: true },
            ThingType { name: "Mancubus", kind: 67, color: [0xc0, 0x40, 0x30, 0xff], sprite: "FATT", doom2_only: true },
            ThingType { name: "Arachnotron", kind: 68, color: [0xc0, 0x40, 0x30, 0xff], sprite: "BSPI", doom2_only: true },
            ThingType { name: "Hell knight", kind: 69, color: [0xc0, 0x40, 0x30, 0xff], sprite: "BOS2", doom2_only: true },
            ThingType { name: "Baron of hell", kind: 3003, color: [0x90, 0x20, 0x80, 0xff], sprite: "BOSS", doom2_only: false },
            ThingType { name: "Arch-vile", kind: 64, color: [0x90, 0x20, 0x80, 0xff], sprite: "VILE", doom2_only: true },
            ThingType { name: "Spiderdemon", kind: 7, color: [0x90, 0x20, 0x80, 0xff], sprite: "SPID", doom2_only: false },
            ThingType { name: "Cyberdemon", kind: 16, color: [0x90, 0x20, 0x80, 0xff], sprite: "CYBR", doom2_only: false },
            ThingType { name: "Wolfenstein SS", kind: 84, color: [0xc0, 0x40, 0x30, 0xff], sprite: "SSWV", doom2_only: true },
            ThingType { name: "Commander Keen", kind: 72, color: [0x90, 0x20, 0x80, 0xff], sprite: "KEEN", doom2_only: true },
            ThingType { name: "Boss brain", kind: 88, color: [0x90, 0x20, 0x80, 0xff], sprite: "BBRN", doom2_only: true },
            ThingType { name: "Boss shooter", kind: 89, color: [0x90, 0x20, 0x80, 0xff], sprite: "SSWV", doom2_only: true },
            ThingType { name: "Spawn spot", kind: 87, color: [0x90, 0x20, 0x80, 0xff], sprite: "", doom2_only: true },
            ThingType { name: "Chainsaw", kind: 2005, color: [0x80, 0x70, 0x20, 0xff], sprite: "CSAW", doom2_only: false },
            ThingType { name: "Shotgun", kind: 2001, color: [0x80, 0x70, 0x20, 0xff], sprite: "SHOT", doom2_only: false },
            ThingType { name: "Super shotgun", kind: 82, color: [0x80, 0x70, 0x20, 0xff], sprite: "SGN2", doom2_only: true },
            ThingType { name: "Chaingun", kind: 2002, color: [0x80, 0x70, 0x20, 0xff], sprite: "MGUN", doom2_only: false },
            ThingType { name: "Rocket launcher", kind: 2003, color: [0x80, 0x70, 0x20, 0xff], sprite: "LAUN", doom2_only: false },
            ThingType { name: "Plasma gun", kind: 2004, color: [0x80, 0x70, 0x20, 0xff], sprite: "PLAS", doom2_only: false },
            ThingType { name: "BFG9000", kind: 2006, color: [0x80, 0x70, 0x20, 0xff], sprite: "BFUG", doom2_only: false },
            ThingType { name: "Clip", kind: 2007, color: [0x50, 0x45, 0x25, 0xff], sprite: "CLIP", doom2_only: false },
            ThingType { name: "Box of bullets", kind: 2048, color: [0x50, 0x45, 0x25, 0xff], sprite: "AMMO", doom2_only: false },
            ThingType { name: "Shells", kind: 2008, color: [0x50, 0x45, 0x25, 0xff], sprite: "SHEL", doom2_only: false },
            ThingType { name: "Box of shells", kind: 2049, color: [0x50, 0x45, 0x25, 0xff], sprite: "SBOX", doom2_only: false },
            ThingType { name: "Rocket", kind: 2010, color: [0x50, 0x45, 0x25, 0xff], sprite: "ROCK", doom2_only: false },
            ThingType { name: "Box of rockets", kind: 2046, color: [0x50, 0x45, 0x25, 0xff], sprite: "BROK", doom2_only: false },
            ThingType { name: "Cell charge", kind: 2047, color: [0x50, 0x45, 0x25, 0xff], sprite: "CELL", doom2_only: false },
            ThingType { name: "Cell pack", kind: 17, color: [0x50, 0x45, 0x25, 0xff], sprite: "CELP", doom2_only: false },
            ThingType { name: "Backpack", kind: 8, color: [0x50, 0x45, 0x25, 0xff], sprite: "BPAK", doom2_only: false },
            ThingType { name: "Stimpack", kind: 2011, color: [0x20, 0x70, 0xc0, 0xff], sprite: "STIM", doom2_only: false },
            ThingType { name: "Medikit", kind: 2012, color: [0x20, 0x70, 0xc0, 0xff], sprite: "MEDI", doom2_only: false },
            ThingType { name: "Health bonus", kind: 2014, color: [0x30, 0x50, 0xb0, 0xff], sprite: "BON1", doom2_only: false },
            ThingType { name: "Soulsphere", kind: 2013, color: [0xc0, 0x40, 0xc0, 0xff], sprite: "SOUL", doom2_only: false },
            ThingType { name: "Megasphere", kind: 83, color: [0xc0, 0x40, 0xc0, 0xff], sprite: "MEGA", doom2_only: true },
            ThingType { name: "Armor bonus", kind: 2015, color: [0x30, 0xb0, 0x50, 0xff], sprite: "BON2", doom2_only: false },
            ThingType { name: "Green armor", kind: 2018, color: [0x20, 0xa0, 0x40, 0xff], sprite: "ARM1", doom2_only: false },
            ThingType { name: "Blue armor", kind: 2019, color: [0x20, 0x20, 0xa0, 0xff], sprite: "ARM2", doom2_only: false },
            ThingType { name: "Invulnerability", kind: 2022, color: [0xc0, 0x40, 0xc0, 0xff], sprite: "PINV", doom2_only: false },
            ThingType { name: "Berserk", kind: 2023, color: [0xc0, 0x40, 0xc0, 0xff], sprite: "PSTR", doom2_only: false },
            ThingType { name: "Invisibility", kind: 2024, color: [0xc0, 0x40, 0xc0, 0xff], sprite: "PINS", doom2_only: false },
            ThingType { name: "Radiation suit", kind: 2025, color: [0xc0, 0x40, 0xc0, 0xff], sprite: "SUIT", doom2_only: false },
            ThingType { name: "Computer map", kind: 2026, color: [0xc0, 0x40, 0xc0, 0xff], sprite: "PMAP", doom2_only: false },
            ThingType { name: "Light goggles", kind: 2045, color: [0xc0, 0x40, 0xc0, 0xff], sprite: "PVIS", doom2_only: false },
            ThingType { name: "Blue keycard", kind: 5, color: [0x30, 0x30, 0xe0, 0xff], sprite: "BKEY", doom2_only: false },
            ThingType { name: "Red keycard", kind: 13, color: [0xe0, 0x30, 0x30, 0xff], sprite: "RKEY", doom2_only: false },
            ThingType { name: "Yellow keycard", kind: 6, color: [0xd0, 0xc0, 0x20, 0xff], sprite: "YKEY", doom2_only: false },
            ThingType { name: "Blue skull key", kind: 40, color: [0x30, 0x30, 0xe0, 0xff], sprite: "BSKU", doom2_only: false },
            ThingType { name: "Red skull key", kind: 38, color: [0xe0, 0x30, 0x30, 0xff], sprite: "RSKU", doom2_only: false },
            ThingType { name: "Yellow skull key", kind: 39, color: [0xd0, 0xc0, 0x20, 0xff], sprite: "YSKU", doom2_only: false },
            ThingType { name: "Barrel", kind: 2035, color: [0xb0, 0x30, 0x20, 0xff], sprite: "BAR1", doom2_only: false },
            ThingType { name: "Tech column", kind: 48, color: [0x70, 0x70, 0x70, 0xff], sprite: "ELEC", doom2_only: false },
            ThingType { name: "Tall green pillar", kind: 30, color: [0x70, 0x70, 0x70, 0xff], sprite: "COL1", doom2_only: false },
            ThingType { name: "Short green pillar", kind: 31, color: [0x70, 0x70, 0x70, 0xff], sprite: "COL2", doom2_only: false },
            ThingType { name: "Tall red pillar", kind: 32, color: [0x70, 0x70, 0x70, 0xff], sprite: "COL3", doom2_only: false },
            ThingType { name: "Short red pillar", kind: 33, color: [0x70, 0x70, 0x70, 0xff], sprite: "COL4", doom2_only: false },
            ThingType { name: "Tall blue torch", kind: 44, color: [0x70, 0x70, 0x70, 0xff], sprite: "TBLU", doom2_only: false },
            ThingType { name: "Tall green torch", kind: 45, color: [0x70, 0x70, 0x70, 0xff], sprite: "TGRN", doom2_only: false },
            ThingType { name: "Tall red torch", kind: 46, color: [0x70, 0x70, 0x70, 0xff], sprite: "TRED", doom2_only: false },
            ThingType { name: "Short blue torch", kind: 55, color: [0x70, 0x70, 0x70, 0xff], sprite: "SMBT", doom2_only: false },
            ThingType { name: "Short green torch", kind: 56, color: [0x70, 0x70, 0x70, 0xff], sprite: "SMGT", doom2_only: false },
            ThingType { name: "Short red torch", kind: 57, color: [0x70, 0x70, 0x70, 0xff], sprite: "SMRT", doom2_only: false },
            ThingType { name: "Floor lamp", kind: 2028, color: [0x70, 0x70, 0x70, 0xff], sprite: "COLU", doom2_only: false },
            ThingType { name: "Burning barrel", kind: 70, color: [0xb0, 0x30, 0x20, 0xff], sprite: "FCAN", doom2_only: false },
            ThingType { name: "Evil eye", kind: 41, color: [0x70, 0x70, 0x70, 0xff], sprite: "CEYE", doom2_only: false },
            ThingType { name: "Floating skull", kind: 42, color: [0x70, 0x70, 0x70, 0xff], sprite: "FSKU", doom2_only: false },
            ThingType { name: "Gray tree", kind: 43, color: [0x70, 0x70, 0x70, 0xff], sprite: "TRE1", doom2_only: false },
            ThingType { name: "Large brown tree", kind: 54, color: [0x70, 0x70, 0x70, 0xff], sprite: "TRE2", doom2_only: false },
            ThingType { name: "Hanging victim, twitching", kind: 49, color: [0x70, 0x70, 0x70, 0xff], sprite: "GOR1", doom2_only: false },
            ThingType { name: "Hanging victim, arms out", kind: 50, color: [0x70, 0x70, 0x70, 0xff], sprite: "GOR2", doom2_only: false },
            ThingType { name: "Hanging victim, one leg", kind: 51, color: [0x70, 0x70, 0x70, 0xff], sprite: "GOR3", doom2_only: false },
            ThingType { name: "Hanging leg", kind: 52, color: [0x70, 0x70, 0x70, 0xff], sprite: "GOR4", doom2_only: false },
            ThingType { name: "Hanging victim, no guts", kind: 53, color: [0x70, 0x70, 0x70, 0xff], sprite: "GOR5", doom2_only: false },
            ThingType { name: "Dead player", kind: 15, color: [0x70, 0x70, 0x70, 0xff], sprite: "PLAY", doom2_only: false },
            ThingType { name: "Dead zombieman", kind: 18, color: [0x70, 0x70, 0x70, 0xff], sprite: "POSS", doom2_only: false },
            ThingType { name: "Dead shotgun guy", kind: 19, color: [0x70, 0x70, 0x70, 0xff], sprite: "SPOS", doom2_only: false },
            ThingType { name: "Dead imp", kind: 20, color: [0x70, 0x70, 0x70, 0xff], sprite: "TROO", doom2_only: false },
            ThingType { name: "Dead demon", kind: 21, color: [0x70, 0x70, 0x70, 0xff], sprite: "SARG", doom2_only: false },
            ThingType { name: "Dead cacodemon", kind: 22, color: [0x70, 0x70, 0x70, 0xff], sprite: "HEAD", doom2_only: false },
            ThingType { name: "Dead lost soul", kind: 23, color: [0x70, 0x70, 0x70, 0xff], sprite: "SKUL", doom2_only: false },
            ThingType { name: "Pool of blood and bones", kind: 24, color: [0x70, 0x70, 0x70, 0xff], sprite: "POL5", doom2_only: false },
            ThingType { name: "Impaled human", kind: 25, color: [0x70, 0x70, 0x70, 0xff], sprite: "POL1", doom2_only: false },
            ThingType { name: "Twitching impaled human", kind: 26, color: [0x70, 0x70, 0x70, 0xff], sprite: "POL6", doom2_only: false },
            ThingType { name: "Skull on a pole", kind: 27, color: [0x70, 0x70, 0x70, 0xff], sprite: "POL4", doom2_only: false },
            ThingType { name: "Five skulls shish kebab", kind: 28, color: [0x70, 0x70, 0x70, 0xff], sprite: "POL2", doom2_only: false },
            ThingType { name: "Pile of skulls and candles", kind: 29, color: [0x70, 0x70, 0x70, 0xff], sprite: "POL3", doom2_only: false },
            ThingType { name: "Candle", kind: 34, color: [0x70, 0x70, 0x70, 0xff], sprite: "CAND", doom2_only: false },
            ThingType { name: "Candelabra", kind: 35, color: [0x70, 0x70, 0x70, 0xff], sprite: "CBRA", doom2_only: false },
            ThingType { name: "Bloody mess 1", kind: 10, color: [0x70, 0x70, 0x70, 0xff], sprite: "PLAY", doom2_only: false },
            ThingType { name: "Bloody mess 2", kind: 12, color: [0x70, 0x70, 0x70, 0xff], sprite: "PLAY", doom2_only: false },
            ThingType { name: "Pool of blood (large)", kind: 79, color: [0x70, 0x70, 0x70, 0xff], sprite: "POL5", doom2_only: false },
            ThingType { name: "Pool of blood (small)", kind: 80, color: [0x70, 0x70, 0x70, 0xff], sprite: "POL5", doom2_only: false },
            ThingType { name: "Pool of brains", kind: 81, color: [0x70, 0x70, 0x70, 0xff], sprite: "POL5", doom2_only: false },
    ]
}

/// The built-in thing table, in palette order.
pub fn default_things() -> (things: Vec<ThingType>)
    ensures
        things@ == default_things_table(),
{
    let things: Vec<ThingType> = vec![
        ThingType { name: "Player 1 start", kind: 1, color: [0x00, 0xb0, 0x40, 0xff], sprite: "PLAY", doom2_only: false },
        ThingType { name: "Player 2 start", kind: 2, color: [0x00, 0xb0, 0x40, 0xff], sprite: "PLAY", doom2_only: false },
        ThingType { name: "Player 3 start", kind: 3, color: [0x00, 0xb0, 0x40, 0xff], sprite: "PLAY", doom2_only: false },
        ThingType { name: "Player 4 start", kind: 4, color: [0x00, 0xb0, 0x40, 0xff], sprite: "PLAY", doom2_only: false },
        ThingType { name: "Deathmatch start", kind: 11, color: [0x40, 0xb0, 0x00, 0xff], sprite: "PLAY", doom2_only: false },
        ThingType { name: "Teleport exit", kind: 14, color: [0x00, 0x80, 0xb0, 0xff], sprite: "", doom2_only: false },
        ThingType { name: "Zombieman", kind: 3004, color: [0xc0, 0x40, 0x30, 0xff], sprite: "POSS", doom2_only: false },
        ThingType { name: "Shotgun guy", kind: 9, color: [0xc0, 0x40, 0x30, 0xff], sprite: "SPOS", doom2_only: false },
        ThingType { name: "Heavy weapon dude", kind: 65, color: [0xc0, 0x40, 0x30, 0xff], sprite: "CPOS", doom2_only: true },
        ThingType { name: "Imp", kind: 3001, color: [0xc0, 0x40, 0x30, 0xff], sprite: "TROO", doom2_only: false },
        ThingType { name: "Demon", kind: 3002, color: [0xc0, 0x40, 0x30, 0xff], sprite: "SARG", doom2_only: false },
        ThingType { name: "Spectre", kind: 58, color: [0x90, 0x90, 0xb0, 0xff], sprite: "SARG", doom2_only: false },
        ThingType { name: "Lost soul", kind: 3006, color: [0xc0, 0xa0, 0x40, 0xff], sprite: "SKUL", doom2_only: false },
        ThingType { name: "Cacodemon", kind: 3005, color: [0xc0, 0x40, 0x30, 0xff], sprite: "HEAD", doom2_only: false },
        ThingType { name: "Pain elemental", kind: 71, color: [0xc0, 0x40, 0x30, 0xff], sprite: "PAIN", doom2_only: true },
        ThingType { name: "Revenant", kind: 66, color: [0xc0, 0x40, 0x30, 0xff], sprite: "SKEL", doom2_only: true },
        ThingType { name: "Mancubus", kind: 67, color: [0xc0, 0x40, 0x30, 0xff], sprite: "FATT", doom2_only: true },
        ThingType { name: "Arachnotron", kind: 68, color: [0xc0, 0x40, 0x30, 0xff], sprite: "BSPI", doom2_only: true },
        ThingType { name: "Hell knight", kind: 69, color: [0xc0, 0x40, 0x30, 0xff], sprite: "BOS2", doom2_only: true },
        ThingType { name: "Baron of hell", kind: 3003, color: [0x90, 0x20, 0x80, 0xff], sprite: "BOSS", doom2_only: false },
        ThingType { name: "Arch-vile", kind: 64, color: [0x90, 0x20, 0x80, 0xff], sprite: "VILE", doom2_only: true },
        ThingType { name: "Spiderdemon", kind: 7, color: [0x90, 0x20, 0x80, 0xff], sprite: "SPID", doom2_only: false },
        ThingType { name: "Cyberdemon", kind: 16, color: [0x90, 0x20, 0x80, 0xff], sprite: "CYBR", doom2_only: false },
        ThingType { name: "Wolfenstein SS", kind: 84, color: [0xc0, 0x40, 0x30, 0xff], sprite: "SSWV", doom2_only: true },
        ThingType { name: "Commander Keen", kind: 72, color: [0x90, 0x20, 0x80, 0xff], sprite: "KEEN", doom2_only: true },
        ThingType { name: "Boss brain", kind: 88, color: [0x90, 0x20, 0x80, 0xff], sprite: "BBRN", doom2_only: true },
        ThingType { name: "Boss shooter", kind: 89, color: [0x90, 0x20, 0x80, 0xff], sprite: "SSWV", doom2_only: true },
        ThingType { name: "Spawn spot", kind: 87, color: [0x90, 0x20, 0x80, 0xff], sprite: "", doom2_only: true },
        ThingType { name: "Chainsaw", kind: 2005, color: [0x80, 0x70, 0x20, 0xff], sprite: "CSAW", doom2_only: false },
        ThingType { name: "Shotgun", kind: 2001, color: [0x80, 0x70, 0x20, 0xff], sprite: "SHOT", doom2_only: false },
        ThingType { name: "Super shotgun", kind: 82, color: [0x80, 0x70, 0x20, 0xff], sprite: "SGN2", doom2_only: true },
        ThingType { name: "Chaingun", kind: 2002, color: [0x80, 0x70, 0x20, 0xff], sprite: "MGUN", doom2_only: false },
        ThingType { name: "Rocket launcher", kind: 2003, color: [0x80, 0x70, 0x20, 0xff], sprite: "LAUN", doom2_only: false },
        ThingType { name: "Plasma gun", kind: 2004, color: [0x80, 0x70, 0x20, 0xff], sprite: "PLAS", doom2_only: false },
        ThingType { name: "BFG9000", kind: 2006, color: [0x80, 0x70, 0x20, 0xff], sprite: "BFUG", doom2_only: false },
        ThingType { name: "Clip", kind: 2007, color: [0x50, 0x45, 0x25, 0xff], sprite: "CLIP", doom2_only: false },
        ThingType { name: "Box of bullets", kind: 2048, color: [0x50, 0x45, 0x25, 0xff], sprite: "AMMO", doom2_only: false },
        ThingType { name: "Shells", kind: 2008, color: [0x50, 0x45, 0x25, 0xff], sprite: "SHEL", doom2_only: false },
        ThingType { name: "Box of shells", kind: 2049, color: [0x50, 0x45, 0x25, 0xff], sprite: "SBOX", doom2_only: false },
        ThingType { name: "Rocket", kind: 2010, color: [0x50, 0x45, 0x25, 0xff], sprite: "ROCK", doom2_only: false },
        ThingType { name: "Box of rockets", kind: 2046, color: [0x50, 0x45, 0x25, 0xff], sprite: "BROK", doom2_only: false },
        ThingType { name: "Cell charge", kind: 2047, color: [0x50, 0x45, 0x25, 0xff], sprite: "CELL", doom2_only: false },
        ThingType { name: "Cell pack", kind: 17, color: [0x50, 0x45, 0x25, 0xff], sprite: "CELP", doom2_only: false },
        ThingType { name: "Backpack", kind: 8, color: [0x50, 0x45, 0x25, 0xff], sprite: "BPAK", doom2_only: false },
        ThingType { name: "Stimpack", kind: 2011, color: [0x20, 0x70, 0xc0, 0xff], sprite: "STIM", doom2_only: false },
        ThingType { name: "Medikit", kind: 2012, color: [0x20, 0x70, 0xc0, 0xff], sprite: "MEDI", doom2_only: false },
        ThingType { name: "Health bonus", kind: 2014, color: [0x30, 0x50, 0xb0, 0xff], sprite: "BON1", doom2_only: false },
        ThingType { name: "Soulsphere", kind: 2013, color: [0xc0, 0x40, 0xc0, 0xff], sprite: "SOUL", doom2_only: false },
        ThingType { name: "Megasphere", kind: 83, color: [0xc0, 0x40, 0xc0, 0xff], sprite: "MEGA", doom2_only: true },
        ThingType { name: "Armor bonus", kind: 2015, color: [0x30, 0xb0, 0x50, 0xff], sprite: "BON2", doom2_only: false },
        ThingType { name: "Green armor", kind: 2018, color: [0x20, 0xa0, 0x40, 0xff], sprite: "ARM1", doom2_only: false },
        ThingType { name: "Blue armor", kind: 2019, color: [0x20, 0x20, 0xa0, 0xff], sprite: "ARM2", doom2_only: false },
        ThingType { name: "Invulnerability", kind: 2022, color: [0xc0, 0x40, 0xc0, 0xff], sprite: "PINV", doom2_only: false },
        ThingType { name: "Berserk", kind: 2023, color: [0xc0, 0x40, 0xc0, 0xff], sprite: "PSTR", doom2_only: false },
        ThingType { name: "Invisibility", kind: 2024, color: [0xc0, 0x40, 0xc0, 0xff], sprite: "PINS", doom2_only: false },
        ThingType { name: "Radiation suit", kind: 2025, color: [0xc0, 0x40, 0xc0, 0xff], sprite: "SUIT", doom2_only: false },
        ThingType { name: "Computer map", kind: 2026, color: [0xc0, 0x40, 0xc0, 0xff], sprite: "PMAP", doom2_only: false },
        ThingType { name: "Light goggles", kind: 2045, color: [0xc0, 0x40, 0xc0, 0xff], sprite: "PVIS", doom2_only: false },
        ThingType { name: "Blue keycard", kind: 5, color: [0x30, 0x30, 0xe0, 0xff], sprite: "BKEY", doom2_only: false },
        ThingType { name: "Red keycard", kind: 13, color: [0xe0, 0x30, 0x30, 0xff], sprite: "RKEY", doom2_only: false },
        ThingType { name: "Yellow keycard", kind: 6, color: [0xd0, 0xc0, 0x20, 0xff], sprite: "YKEY", doom2_only: false },
        ThingType { name: "Blue skull key", kind: 40, color: [0x30, 0x30, 0xe0, 0xff], sprite: "BSKU", doom2_only: false },
        ThingType { name: "Red skull key", kind: 38, color: [0xe0, 0x30, 0x30, 0xff], sprite: "RSKU", doom2_only: false },
        ThingType { name: "Yellow skull key", kind: 39, color: [0xd0, 0xc0, 0x20, 0xff], sprite: "YSKU", doom2_only: false },
        ThingType { name: "Barrel", kind: 2035, color: [0xb0, 0x30, 0x20, 0xff], sprite: "BAR1", doom2_only: false },
        ThingType { name: "Tech column", kind: 48, color: [0x70, 0x70, 0x70, 0xff], sprite: "ELEC", doom2_only: false },
        ThingType { name: "Tall green pillar", kind: 30, color: [0x70, 0x70, 0x70, 0xff], sprite: "COL1", doom2_only: false },
        ThingType { name: "Short green pillar", kind: 31, color: [0x70, 0x70, 0x70, 0xff], sprite: "COL2", doom2_only: false },
        ThingType { name: "Tall red pillar", kind: 32, color: [0x70, 0x70, 0x70, 0xff], sprite: "COL3", doom2_only: false },
        ThingType { name: "Short red pillar", kind: 33, color: [0x70, 0x70, 0x70, 0xff], sprite: "COL4", doom2_only: false },
        ThingType { name: "Tall blue torch", kind: 44, color: [0x70, 0x70, 0x70, 0xff], sprite: "TBLU", doom2_only: false },
        ThingType { name: "Tall green torch", kind: 45, color: [0x70, 0x70, 0x70, 0xff], sprite: "TGRN", doom2_only: false },
        ThingType { name: "Tall red torch", kind: 46, color: [0x70, 0x70, 0x70, 0xff], sprite: "TRED", doom2_only: false },
        ThingType { name: "Short blue torch", kind: 55, color: [0x70, 0x70, 0x70, 0xff], sprite: "SMBT", doom2_only: false },
        ThingType { name: "Short green torch", kind: 56, color: [0x70, 0x70, 0x70, 0xff], sprite: "SMGT", doom2_only: false },
        ThingType { name: "Short red torch", kind: 57, color: [0x70, 0x70, 0x70, 0xff], sprite: "SMRT", doom2_only: false },
        ThingType { name: "Floor lamp", kind: 2028, color: [0x70, 0x70, 0x70, 0xff], sprite: "COLU", doom2_only: false },
        ThingType { name: "Burning barrel", kind: 70, color: [0xb0, 0x30, 0x20, 0xff], sprite: "FCAN", doom2_only: false },
        ThingType { name: "Evil eye", kind: 41, color: [0x70, 0x70, 0x70, 0xff], sprite: "CEYE", doom2_only: false },
        ThingType { name: "Floating skull", kind: 42, color: [0x70, 0x70, 0x70, 0xff], sprite: "FSKU", doom2_only: false },
        ThingType { name: "Gray tree", kind: 43, color: [0x70, 0x70, 0x70, 0xff], sprite: "TRE1", doom2_only: false },
        ThingType { name: "Large brown tree", kind: 54, color: [0x70, 0x70, 0x70, 0xff], sprite: "TRE2", doom2_only: false },
        ThingType { name: "Hanging victim, twitching", kind: 49, color: [0x70, 0x70, 0x70, 0xff], sprite: "GOR1", doom2_only: false },
        ThingType { name: "Hanging victim, arms out", kind: 50, color: [0x70, 0x70, 0x70, 0xff], sprite: "GOR2", doom2_only: false },
        ThingType { name: "Hanging victim, one leg", kind: 51, color: [0x70, 0x70, 0x70, 0xff], sprite: "GOR3", doom2_only: false },
        ThingType { name: "Hanging leg", kind: 52, color: [0x70, 0x70, 0x70, 0xff], sprite: "GOR4", doom2_only: false },
        ThingType { name: "Hanging victim, no guts", kind: 53, color: [0x70, 0x70, 0x70, 0xff], sprite: "GOR5", doom2_only: false },
        ThingType { name: "Dead player", kind: 15, color: [0x70, 0x70, 0x70, 0xff], sprite: "PLAY", doom2_only: false },
        ThingType { name: "Dead zombieman", kind: 18, color: [0x70, 0x70, 0x70, 0xff], sprite: "POSS", doom2_only: false },
        ThingType { name: "Dead shotgun guy", kind: 19, color: [0x70, 0x70, 0x70, 0xff], sprite: "SPOS", doom2_only: false },
        ThingType { name: "Dead imp", kind: 20, color: [0x70, 0x70, 0x70, 0xff], sprite: "TROO", doom2_only: false },
        ThingType { name: "Dead demon", kind: 21, color: [0x70, 0x70, 0x70, 0xff], sprite: "SARG", doom2_only: false },
        ThingType { name: "Dead cacodemon", kind: 22, color: [0x70, 0x70, 0x70, 0xff], sprite: "HEAD", doom2_only: false },
        ThingType { name: "Dead lost soul", kind: 23, color: [0x70, 0x70, 0x70, 0xff], sprite: "SKUL", doom2_only: false },
        ThingType { name: "Pool of blood and bones", kind: 24, color: [0x70, 0x70, 0x70, 0xff], sprite: "POL5", doom2_only: false },
        ThingType { name: "Impaled human", kind: 25, color: [0x70, 0x70, 0x70, 0xff], sprite: "POL1", doom2_only: false },
        ThingType { name: "Twitching impaled human", kind: 26, color: [0x70, 0x70, 0x70, 0xff], sprite: "POL6", doom2_only: false },
        ThingType { name: "Skull on a pole", kind: 27, color: [0x70, 0x70, 0x70, 0xff], sprite: "POL4", doom2_only: false },
        ThingType { name: "Five skulls shish kebab", kind: 28, color: [0x70, 0x70, 0x70, 0xff], sprite: "POL2", doom2_only: false },
        ThingType { name: "Pile of skulls and candles", kind: 29, color: [0x70, 0x70, 0x70, 0xff], sprite: "POL3", doom2_only: false },
        ThingType { name: "Candle", kind: 34, color: [0x70, 0x70, 0x70, 0xff], sprite: "CAND", doom2_only: false },
        ThingType { name: "Candelabra", kind: 35, color: [0x70, 0x70, 0x70, 0xff], sprite: "CBRA", doom2_only: false },
        ThingType { name: "Bloody mess 1", kind: 10, color: [0x70, 0x70, 0x70, 0xff], sprite: "PLAY", doom2_only: false },
        ThingType { name: "Bloody mess 2", kind: 12, color: [0x70, 0x70, 0x70, 0xff], sprite: "PLAY", doom2_only: false },
        ThingType { name: "Pool of blood (large)", kind: 79, color: [0x70, 0x70, 0x70, 0xff], sprite: "POL5", doom2_only: false },
        ThingType { name: "Pool of blood (small)", kind: 80, color: [0x70, 0x70, 0x70, 0xff], sprite: "POL5", doom2_only: false },
        ThingType { name: "Pool of brains", kind: 81, color: [0x70, 0x70, 0x70, 0xff], sprite: "POL5", doom2_only: false },
    ];
    assert(things@ =~= default_things_table());
    things
}

/// Whether the palette shows thing `t`: Doom II things only for Doom II, and sprite-less
/// markers always, others when their sprite is present.
pub open spec fn palette_shows(t: ThingType, doom2: bool, present: bool) -> bool {
    (doom2 || !t.doom2_only) && (t.sprite@.len() == 0 || present)
}

/// Whether the palette asks about thing `t`'s sprite at all.
pub open spec fn palette_asks(t: ThingType, doom2: bool) -> bool {
    (doom2 || !t.doom2_only) && t.sprite@.len() != 0
}

/// Indices of the first `n` table entries that the palette shows, given each entry's sprite answer.
pub open spec fn palette_indices(things: Seq<ThingType>, doom2: bool, present: Seq<bool>, n: int) -> Seq<
    usize,
>
    decreases n,
{
    if n <= 0 {
        Seq::empty()
    } else {
        let rest = palette_indices(things, doom2, present, n - 1);
        if palette_shows(things[n - 1], doom2, present[n - 1]) {
            rest.push((n - 1) as usize)
        } else {
            rest
        }
    }
}

/// Indices into [`default_things`] for the current game and the available sprites.
/// `sprite_present` is asked only about the sprites of things the game allows.
pub fn thing_palette(doom2: bool, sprite_present: impl Fn(&str) -> bool) -> (indices: Vec<usize>)
    requires
        forall|sprite: &str| call_requires(sprite_present, (sprite,)),
    ensures
        exists|present: Seq<bool>|
            {
                &&& present.len() == default_things_table().len()
                &&& forall|i: int|
                    0 <= i < present.len() && palette_asks(default_things_table()[i], doom2)
                        ==> call_ensures(
                        sprite_present,
                        (default_things_table()[i].sprite,),
                        #[trigger] present[i],
                    )
                &&& indices@ == palette_indices(
                    default_things_table(),
                    doom2,
                    present,
                    default_things_table().len() as int,
                )
            },
{
    let things: Vec<ThingType> = default_things();
    let mut out: Vec<usize> = Vec::new();
    let ghost mut present: Seq<bool> = Seq::empty();
    let mut i: usize = 0;
    while i < things.len()
        invariant
            things@ == default_things_table(),
            i <= things@.len(),
            present.len() == i,
            forall|sprite: &str| call_requires(sprite_present, (sprite,)),
            forall|k: int|
                0 <= k < i && palette_asks(things@[k], doom2) ==> call_ensures(
                    sprite_present,
                    (things@[k].sprite,),
                    #[trigger] present[k],
                ),
            out@ == palette_indices(things@, doom2, present, i as int),
        decreases things@.len() - i,
    {
        let t: ThingType = things[i];
        let allowed: bool = doom2 || !t.doom2_only;
        let mut answer: bool = false;
        let shown: bool = if !allowed {
            false
        } else if t.sprite.is_empty() {
            true
        } else {
            answer = sprite_present(t.sprite);
            answer
        };
        let ghost old_present = present;
        proof {
            present = present.push(answer);
            lemma_palette_indices_prefix(things@, doom2, present, old_present, i as int);
            assert(shown == palette_shows(things@[i as int], doom2, present[i as int]));
        }
        if shown {
            out.push(i);
        }
        proof {
            assert(out@ == palette_indices(things@, doom2, present, i + 1));
        }
        i = i + 1;
    }
    out
}

proof fn lemma_palette_indices_prefix(things: Seq<ThingType>, doom2: bool, a: Seq<bool>, b: Seq<bool>, n: int)
    requires
        n <= a.len(),
        n <= b.len(),
        forall|k: int| 0 <= k < n ==> a[k] == b[k],
    ensures
        palette_indices(things, doom2, a, n) == palette_indices(things, doom2, b, n),
    decreases n,
{
    if n > 0 {
        lemma_palette_indices_prefix(things, doom2, a, b, n - 1);
    }
}

/// Name of the first built-in thing of `kind`.
pub open spec fn thing_name_of(things: Seq<ThingType>, kind: i32, n: int) -> Seq<char>
    decreases n,
{
    if n <= 0 {
        "(unknown)"@
    } else if things[things.len() - n].kind == kind {
        things[things.len() - n].name@
    } else {
        thing_name_of(things, kind, n - 1)
    }
}

/// Display name of the first built-in thing of `kind`, or `(unknown)`.
pub fn launch_thing_name(kind: i32) -> (name: &'static str)
    ensures
        name@ == thing_name_of(default_things_table(), kind, default_things_table().len() as int),
{
    let things: Vec<ThingType> = default_things();
    let mut i: usize = 0;
    while i < things.len()
        invariant
            things@ == default_things_table(),
            i <= things@.len(),
            thing_name_of(things@, kind, things@.len() as int) == thing_name_of(
                things@,
                kind,
                things@.len() - i,
            ),
        decreases things@.len() - i,
    {
        if things[i].kind == kind {
            return things[i].name;
        }
        i = i + 1;
    }
    "(unknown)"
}

/// Thing kinds that can serve as the play-test start.
pub const LAUNCH_THING_KINDS: [i32; 5] = [1, 2, 3, 4, 11];

/// Kind placed by the thing tool by default (player 1 start).
pub const DEFAULT_THING_KIND: i32 = 1;

proof fn lemma_palette_indices_facts(things: Seq<ThingType>, doom2: bool, present: Seq<bool>, n: int)
    requires
        0 <= n <= things.len(),
        n <= present.len(),
        n <= usize::MAX,
    ensures
        forall|k: int|
            0 <= k < palette_indices(things, doom2, present, n).len() ==> 0 <= #[trigger] palette_indices(
                things,
                doom2,
                present,
                n,
            )[k] < n && palette_shows(
                things[palette_indices(things, doom2, present, n)[k] as int],
                doom2,
                present[palette_indices(things, doom2, present, n)[k] as int],
            ),
        (forall|i: int| 0 <= i < n ==> palette_shows(#[trigger] things[i], doom2, present[i]))
            ==> palette_indices(things, doom2, present, n).len() == n,
    decreases n,
{
    if n > 0 {
        lemma_palette_indices_facts(things, doom2, present, n - 1);
        let rest = palette_indices(things, doom2, present, n - 1);
        let all = palette_indices(things, doom2, present, n);
        assert forall|k: int| 0 <= k < all.len() implies 0 <= #[trigger] all[k] < n && palette_shows(
            things[all[k] as int],
            doom2,
            present[all[k] as int],
        ) by {
            if k < rest.len() {
                assert(all[k] == rest[k]);
                assert(0 <= rest[k] < n - 1);
            } else {
                assert(all[k] == (n - 1) as usize);
            }
        }
    }
}

/// The Doom 1 palette never offers a Doom II-only thing; the Doom II palette offers every
/// thing when every sprite is present.
pub proof fn lemma_palette_respects_game(doom2: bool, present: Seq<bool>)
    requires
        present.len() == default_things_table().len(),
    ensures
        !doom2 ==> forall|k: int|
            0 <= k < palette_indices(default_things_table(), doom2, present, present.len() as int).len()
                ==> !default_things_table()[#[trigger] palette_indices(
                default_things_table(),
                doom2,
                present,
                present.len() as int,
            )[k] as int].doom2_only,
        doom2 && (forall|i: int| 0 <= i < present.len() ==> #[trigger] present[i]) ==> palette_indices(
            default_things_table(),
            doom2,
            present,
            present.len() as int,
        ).len() == default_things_table().len(),
{
    let t = default_things_table();
    lemma_palette_indices_facts(t, doom2, present, present.len() as int);
    if doom2 && (forall|i: int| 0 <= i < present.len() ==> #[trigger] present[i]) {
        assert forall|i: int| 0 <= i < present.len() implies palette_shows(
            #[trigger] t[i],
            doom2,
            present[i],
        ) by {
            assert(present[i]);
        }
    }
}

} // verus!
