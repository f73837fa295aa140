# Stockholm

*Stockholm* is a laboratory for algorithmic trading: it backtests strategies over historical prices, trades a symbol through Interactive Brokers, fetches historical bars, and trains and runs a small neural network.

The library under `src/` is written in [Verus](https://github.com/verus-lang/verus). Every function in it states what it returns or changes, and Verus proves that it does so without panicking. What the proof does not reach is inside the calls into other crates: drawing the reference of a new order panics if the operating system has no random numbers to give. The program under `app/` is ordinary Rust around it: command-line arguments, files, the connection to the broker, and the network itself.

## The library

| Module | What it holds |
| --- | --- |
| `number`, `fixed` | The arithmetic that everything is generic over, and decimal numbers with six places |
| `text`, `table`, `clock`, `files` | Texts and integers, comma-separated tables, moments and the Eastern clock, the names and order of files |
| `backtest`, `market_maker`, `grid`, `report` | Backtests: parsing of market data, the market-maker simulation, parameter searches, and reports |
| `run`, `state`, `orders`, `cancellation`, `control` | The trading bot: its state, the bookkeeping of its orders, their cancellation, and the decisions of each step |
| `historical` | The division of a range into requests, and the rows printed for them |
| `series`, `train`, `metrics`, `infer` | Price series, training windows and their labels, classification metrics, and the windows of inference |
| `laws` | What holds of the library as a whole, as proof functions |

Prices are floating-point numbers when the program runs. Verus does not reason about those, so the library is generic over the trait `Number`, whose operations are functions of their operands and nothing more. What is proved of generic code holds in every such arithmetic. The program implements the trait for `f64` and `f32`; the library implements it for decimal numbers, in which it also proves laws about amounts of cash and shares.

Calls into other crates stand in small functions that Verus does not look into, each with a doc comment that says what is claimed of the call.
