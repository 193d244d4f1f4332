//! The refusals of the library: the rules of the game that can be broken, each
//! with a code of its own, and the reasons that have to do with accounts.
use vstd::prelude::*;

verus! {

/// A rule of the game that an instruction broke. Each kind has its own code.
#[derive(Clone, Copy, Debug, PartialEq, Eq, Structural)]
pub enum MonopolyError {
    InvalidInstruction,
    NotRentOwner,
    InsufficientBalance,
    InvalidMove,
    PropertyAlreadyOwned,
    MaximumHousesReached,
    InvalidProperty,
    NotPropertyOwner,
    InvalidGameState,
    InsufficientFunds,
    PropertyNotOwned,
    OwnProperty,
    NotPlayerTurn,
    NotAProperty,
    InvalidDiceRoll,
    IncompleteColorSet,
    InvalidPropertyIndex,
    MaxHousesReached,
    InvalidPlayerCount,
}

impl MonopolyError {
    /// The code under which a caller sees this error: its place in the list of kinds.
    pub open spec fn spec_code(self) -> u32 {
        match self {
            MonopolyError::InvalidInstruction => 0,
            MonopolyError::NotRentOwner => 1,
            MonopolyError::InsufficientBalance => 2,
            MonopolyError::InvalidMove => 3,
            MonopolyError::PropertyAlreadyOwned => 4,
            MonopolyError::MaximumHousesReached => 5,
            MonopolyError::InvalidProperty => 6,
            MonopolyError::NotPropertyOwner => 7,
            MonopolyError::InvalidGameState => 8,
            MonopolyError::InsufficientFunds => 9,
            MonopolyError::PropertyNotOwned => 10,
            MonopolyError::OwnProperty => 11,
            MonopolyError::NotPlayerTurn => 12,
            MonopolyError::NotAProperty => 13,
            MonopolyError::InvalidDiceRoll => 14,
            MonopolyError::IncompleteColorSet => 15,
            MonopolyError::InvalidPropertyIndex => 16,
            MonopolyError::MaxHousesReached => 17,
            MonopolyError::InvalidPlayerCount => 18,
        }
    }

    /// The error kind that a code stands for, if any.
    pub open spec fn spec_from_code(code: u32) -> Option<MonopolyError> {
        if code == 0 {
            Some(MonopolyError::InvalidInstruction)
        } else if code == 1 {
            Some(MonopolyError::NotRentOwner)
        } else if code == 2 {
            Some(MonopolyError::InsufficientBalance)
        } else if code == 3 {
            Some(MonopolyError::InvalidMove)
        } else if code == 4 {
            Some(MonopolyError::PropertyAlreadyOwned)
        } else if code == 5 {
            Some(MonopolyError::MaximumHousesReached)
        } else if code == 6 {
            Some(MonopolyError::InvalidProperty)
        } else if code == 7 {
            Some(MonopolyError::NotPropertyOwner)
        } else if code == 8 {
            Some(MonopolyError::InvalidGameState)
        } else if code == 9 {
            Some(MonopolyError::InsufficientFunds)
        } else if code == 10 {
            Some(MonopolyError::PropertyNotOwned)
        } else if code == 11 {
            Some(MonopolyError::OwnProperty)
        } else if code == 12 {
            Some(MonopolyError::NotPlayerTurn)
        } else if code == 13 {
            Some(MonopolyError::NotAProperty)
        } else if code == 14 {
            Some(MonopolyError::InvalidDiceRoll)
        } else if code == 15 {
            Some(MonopolyError::IncompleteColorSet)
        } else if code == 16 {
            Some(MonopolyError::InvalidPropertyIndex)
        } else if code == 17 {
            Some(MonopolyError::MaxHousesReached)
        } else if code == 18 {
            Some(MonopolyError::InvalidPlayerCount)
        } else {
            None
        }
    }

    /// The code of this error.
    pub fn code(&self) -> (code: u32)
        ensures
            code == self.spec_code(),
    {
        match self {
            MonopolyError::InvalidInstruction => 0,
            MonopolyError::NotRentOwner => 1,
            MonopolyError::InsufficientBalance => 2,
            MonopolyError::InvalidMove => 3,
            MonopolyError::PropertyAlreadyOwned => 4,
            MonopolyError::MaximumHousesReached => 5,
            MonopolyError::InvalidProperty => 6,
            MonopolyError::NotPropertyOwner => 7,
            MonopolyError::InvalidGameState => 8,
            MonopolyError::InsufficientFunds => 9,
            MonopolyError::PropertyNotOwned => 10,
            MonopolyError::OwnProperty => 11,
            MonopolyError::NotPlayerTurn => 12,
            MonopolyError::NotAProperty => 13,
            MonopolyError::InvalidDiceRoll => 14,
            MonopolyError::IncompleteColorSet => 15,
            MonopolyError::InvalidPropertyIndex => 16,
            MonopolyError::MaxHousesReached => 17,
            MonopolyError::InvalidPlayerCount => 18,
        }
    }

    /// The error with the given code, or `None` where no kind has it.
    pub fn from_code(code: u32) -> (kind: Option<MonopolyError>)
        ensures
            kind == Self::spec_from_code(code),
    {
        match code {
            0 => Some(MonopolyError::InvalidInstruction),
            1 => Some(MonopolyError::NotRentOwner),
            2 => Some(MonopolyError::InsufficientBalance),
            3 => Some(MonopolyError::InvalidMove),
            4 => Some(MonopolyError::PropertyAlreadyOwned),
            5 => Some(MonopolyError::MaximumHousesReached),
            6 => Some(MonopolyError::InvalidProperty),
            7 => Some(MonopolyError::NotPropertyOwner),
            8 => Some(MonopolyError::InvalidGameState),
            9 => Some(MonopolyError::InsufficientFunds),
            10 => Some(MonopolyError::PropertyNotOwned),
            11 => Some(MonopolyError::OwnProperty),
            12 => Some(MonopolyError::NotPlayerTurn),
            13 => Some(MonopolyError::NotAProperty),
            14 => Some(MonopolyError::InvalidDiceRoll),
            15 => Some(MonopolyError::IncompleteColorSet),
            16 => Some(MonopolyError::InvalidPropertyIndex),
            17 => Some(MonopolyError::MaxHousesReached),
            18 => Some(MonopolyError::InvalidPlayerCount),
            _ => None,
        }
    }

    /// The words that describe this error to a person.
    pub fn message(&self) -> (text: &'static str)
        ensures
            text@ == self.spec_message(),
    {
        match self {
            MonopolyError::InvalidInstruction => "Invalid Instruction",
            MonopolyError::NotRentOwner => "Not Rent Owner",
            MonopolyError::InsufficientBalance => "Insufficient Balance",
            MonopolyError::InvalidMove => "Invalid Move",
            MonopolyError::PropertyAlreadyOwned => "Property Already Owned",
            MonopolyError::MaximumHousesReached => "Maximum Houses Reached",
            MonopolyError::InvalidProperty => "Invalid Property",
            MonopolyError::NotPropertyOwner => "Not Property Owner",
            MonopolyError::InvalidGameState => "Invalid Game State",
            MonopolyError::InsufficientFunds => "Insufficient Funds",
            MonopolyError::PropertyNotOwned => "Property Not Owned",
            MonopolyError::OwnProperty => "Own Property",
            MonopolyError::NotPlayerTurn => "Not Player's Turn",
            MonopolyError::NotAProperty => "Not A Property",
            MonopolyError::InvalidDiceRoll => "Invalid Dice Roll",
            MonopolyError::IncompleteColorSet => "Incomplete Color Set",
            MonopolyError::InvalidPropertyIndex => "Invalid Property Index",
            MonopolyError::MaxHousesReached => "Maximum Houses Reached",
            MonopolyError::InvalidPlayerCount => "Invalid Player Count",
        }
    }

    /// The text of `message` for each kind.
    pub open spec fn spec_message(self) -> Seq<char> {
        match self {
            MonopolyError::InvalidInstruction => "Invalid Instruction"@,
            MonopolyError::NotRentOwner => "Not Rent Owner"@,
            MonopolyError::InsufficientBalance => "Insufficient Balance"@,
            MonopolyError::InvalidMove => "Invalid Move"@,
            MonopolyError::PropertyAlreadyOwned => "Property Already Owned"@,
            MonopolyError::MaximumHousesReached => "Maximum Houses Reached"@,
            MonopolyError::InvalidProperty => "Invalid Property"@,
            MonopolyError::NotPropertyOwner => "Not Property Owner"@,
            MonopolyError::InvalidGameState => "Invalid Game State"@,
            MonopolyError::InsufficientFunds => "Insufficient Funds"@,
            MonopolyError::PropertyNotOwned => "Property Not Owned"@,
            MonopolyError::OwnProperty => "Own Property"@,
            MonopolyError::NotPlayerTurn => "Not Player's Turn"@,
            MonopolyError::NotAProperty => "Not A Property"@,
            MonopolyError::InvalidDiceRoll => "Invalid Dice Roll"@,
            MonopolyError::IncompleteColorSet => "Incomplete Color Set"@,
            MonopolyError::InvalidPropertyIndex => "Invalid Property Index"@,
            MonopolyError::MaxHousesReached => "Maximum Houses Reached"@,
            MonopolyError::InvalidPlayerCount => "Invalid Player Count"@,
        }
    }
}

/// Why an instruction was refused.
#[derive(Clone, Copy, Debug, PartialEq, Eq, Structural)]
pub enum ProgramError {
    /// A rule of the game was broken; the number is the code of the `MonopolyError`.
    Custom(u32),
    /// An argument handed to the library cannot be used.
    InvalidArgument,
    /// The bytes of an instruction do not form an instruction.
    InvalidInstructionData,
    /// The bytes of an account do not form the state they should hold.
    InvalidAccountData,
    /// An account's buffer has no room for the state that should be written to it.
    AccountDataTooSmall,
    /// An account is not owned by the program that was asked to change it.
    IncorrectProgramId,
    /// The account that has to authorise the instruction did not sign it.
    MissingRequiredSignature,
    /// The account already holds an initialised state.
    AccountAlreadyInitialized,
    /// The account holds no initialised state.
    UninitializedAccount,
    /// The instruction was given fewer accounts than it needs.
    NotEnoughAccountKeys,
    /// An amount would leave the range of 64-bit unsigned numbers.
    ArithmeticOverflow,
}

impl From<MonopolyError> for ProgramError {
    fn from(e: MonopolyError) -> (err: ProgramError) {
        ProgramError::Custom(e.code())
    }
}

impl vstd::std_specs::convert::FromSpecImpl<MonopolyError> for ProgramError {
    open spec fn obeys_from_spec() -> bool {
        true
    }

    open spec fn from_spec(e: MonopolyError) -> ProgramError {
        rule(e)
    }
}

/// The refusal that stands for a broken rule of the game.
pub open spec fn rule(e: MonopolyError) -> ProgramError {
    ProgramError::Custom(e.spec_code())
}

/// The refusal that stands for a broken rule of the game.
pub fn rule_error(e: MonopolyError) -> (err: ProgramError)
    ensures
        err == rule(e),
{
    ProgramError::Custom(e.code())
}

} // verus!
