use vstd::prelude::*;

verus! {

/// The languages of the interface texts.
pub enum TitleLocale {
    RU,
    EN,
}

/// The interface texts in one language.
pub struct Titles {
    pub title: String,
    pub check: String,
    pub mate: String,
    pub turn: String,
    pub button_new_game: String,
    pub button_continue_game: String,
    pub button_exit_game: String,
}

impl Titles {
    pub fn new(locale: TitleLocale) -> (r: Titles)
        ensures
            locale is EN ==> r.title@ == "Chess Game"@ && r.check@ == "Check"@ && r.mate@
                == "Mate"@ && r.turn@ == "Turn"@ && r.button_new_game@ == "New Game"@
                && r.button_continue_game@ == "Continue"@ && r.button_exit_game@ == "Exit"@,
            locale is RU ==> r.title@ == "Шахматы"@ && r.check@ == "Шах"@ && r.mate@ == "Мат"@
                && r.turn@ == "Ход"@ && r.button_new_game@ == "Новая игра"@
                && r.button_continue_game@ == "Продолжить"@ && r.button_exit_game@ == "Выход"@,
    {
        match locale {
            TitleLocale::EN => Titles {
                title: String::from_str("Chess Game"),
                check: String::from_str("Check"),
                mate: String::from_str("Mate"),
                turn: String::from_str("Turn"),
                button_new_game: String::from_str("New Game"),
                button_continue_game: String::from_str("Continue"),
                button_exit_game: String::from_str("Exit"),
            },
            TitleLocale::RU => Titles {
                title: String::from_str("Шахматы"),
                check: String::from_str("Шах"),
                mate: String::from_str("Мат"),
                turn: String::from_str("Ход"),
                button_new_game: String::from_str("Новая игра"),
                button_continue_game: String::from_str("Продолжить"),
                button_exit_game: String::from_str("Выход"),
            },
        }
    }
}

} // verus!
